use std::rc::Rc;
use vstd::prelude::*;
use crate::env::{Env, view_env};
use crate::error::{Error, ErrorKind, error, fault};
use crate::insns::{Code, Op, view_code};

verus! {

/// A value of the language. Pairs and closures hold their parts by shared
/// reference, so composite values can be shared without copying.
#[derive(Debug, Clone, PartialEq)]
pub enum Object {
    Nil,
    T,
    Number(i32),
    Symbol(String),
    Cons(Rc<Object>, Rc<Object>),
    Func(Code, Rc<Env>),
}

/// The mathematical model of a value: sharing is forgotten, strings are
/// character sequences, code is a sequence of model instructions and an
/// environment is a sequence of frames, innermost first.
pub enum Val {
    Nil,
    T,
    Num(i32),
    Sym(Seq<char>),
    Pair(Box<Val>, Box<Val>),
    Closure(Seq<Op>, Seq<Seq<Val>>),
}

/// The model of a value.
pub open spec fn view_obj(o: Object) -> Val
    decreases o,
{
    match o {
        Object::Nil => Val::Nil,
        Object::T => Val::T,
        Object::Number(n) => Val::Num(n),
        Object::Symbol(s) => Val::Sym(s@),
        Object::Cons(a, d) => Val::Pair(Box::new(view_obj(*a)), Box::new(view_obj(*d))),
        Object::Func(c, e) => Val::Closure(view_code(*c), view_env(*e)),
    }
}

impl View for Object {
    type V = Val;

    open spec fn view(&self) -> Val {
        view_obj(*self)
    }
}

/// The character of a decimal digit.
pub open spec fn digit_char(d: nat) -> char {
    if d == 0 {
        '0'
    } else if d == 1 {
        '1'
    } else if d == 2 {
        '2'
    } else if d == 3 {
        '3'
    } else if d == 4 {
        '4'
    } else if d == 5 {
        '5'
    } else if d == 6 {
        '6'
    } else if d == 7 {
        '7'
    } else if d == 8 {
        '8'
    } else {
        '9'
    }
}

/// The decimal digits of a natural number, most significant first.
pub open spec fn digits(n: nat) -> Seq<char>
    decreases n,
{
    if n < 10 {
        seq![digit_char(n)]
    } else {
        digits(n / 10).push(digit_char(n % 10))
    }
}

/// An integer in decimal, with a leading `-` when negative.
pub open spec fn decimal(n: int) -> Seq<char> {
    if n < 0 {
        seq!['-'] + digits((-n) as nat)
    } else {
        digits(n as nat)
    }
}

/// How a value that is not a pair prints.
pub open spec fn print_atom(v: Val) -> Seq<char> {
    match v {
        Val::Nil => "nil"@,
        Val::T => "t"@,
        Val::Num(n) => decimal(n as int),
        Val::Sym(s) => s,
        Val::Pair(..) => "(...)"@,
        Val::Closure(..) => "#<func>"@,
    }
}

/// How a value prints: lists in parentheses, separated by spaces, with
/// ` . ` before a last `cdr` that is not `Nil`.
pub open spec fn print_val(v: Val) -> Seq<char>
    decreases v, 1nat,
{
    match v {
        Val::Pair(..) => "("@ + print_list(v) + ")"@,
        _ => print_atom(v),
    }
}

/// The inside of a list's parentheses, from the pair `v` on.
pub open spec fn print_list(v: Val) -> Seq<char>
    decreases v, 0nat,
{
    match v {
        Val::Pair(a, d) => print_val(*a) + match *d {
            Val::Nil => Seq::empty(),
            _ => " "@ + print_list(*d),
        },
        _ => ". "@ + print_atom(v),
    }
}

/// The first component of a pair; `Nil` for `Nil`; nothing for other values.
pub open spec fn car_of(v: Val) -> Option<Val> {
    match v {
        Val::Nil => Some(Val::Nil),
        Val::Pair(a, _) => Some(*a),
        _ => None,
    }
}

/// The second component of a pair; `Nil` for `Nil`; nothing for other values.
pub open spec fn cdr_of(v: Val) -> Option<Val> {
    match v {
        Val::Nil => Some(Val::Nil),
        Val::Pair(_, d) => Some(*d),
        _ => None,
    }
}

/// `True` for true, `Nil` for false.
pub open spec fn val_of_bool(b: bool) -> Val {
    if b {
        Val::T
    } else {
        Val::Nil
    }
}

/// The elements along the `cdr` spine of a proper list; nothing when the
/// spine ends in anything but `Nil`.
pub open spec fn list_elems(v: Val) -> Option<Seq<Val>>
    decreases v,
{
    match v {
        Val::Nil => Some(Seq::empty()),
        Val::Pair(a, d) => match list_elems(*d) {
            Some(s) => Some(seq![*a] + s),
            None => None,
        },
        _ => None,
    }
}

/// The models of a sequence of shared values.
pub open spec fn views(s: Seq<Rc<Object>>) -> Seq<Val> {
    s.map_values(|o: Rc<Object>| view_obj(*o))
}

/// The model of a pushed sequence is the pushed model.
pub proof fn lemma_views_push(s: Seq<Rc<Object>>, v: Rc<Object>)
    ensures
        views(s.push(v)) == views(s).push(view_obj(*v)),
{
    assert(views(s.push(v)) =~= views(s).push(view_obj(*v)));
}

/// The model of a sequence without its last element.
pub proof fn lemma_views_drop_last(s: Seq<Rc<Object>>)
    requires
        s.len() > 0,
    ensures
        views(s.drop_last()) == views(s).drop_last(),
        views(s).last() == view_obj(*s.last()),
{
    assert(views(s.drop_last()) =~= views(s).drop_last());
}

impl Object {
    /// The printed form of the value.
    pub fn to_string(&self) -> (r: String)
        ensures
            r@ == print_val(self@),
        decreases *self, 1nat,
    {
        match self {
            Object::Cons(..) => {
                let mut r = String::from_str("(");
                self.write_list(&mut r);
                r.append(")");
                r
            },
            _ => {
                let mut r = String::new();
                self.write_atom(&mut r);
                r
            },
        }
    }

    /// Appends the printed form of a value that is not a pair.
    fn write_atom(&self, out: &mut String)
        ensures
            final(out)@ == old(out)@ + print_atom(self@),
    {
        match self {
            Object::Nil => out.append("nil"),
            Object::T => out.append("t"),
            Object::Number(n) => write_decimal(*n, out),
            Object::Symbol(s) => out.append(s.as_str()),
            Object::Cons(..) => out.append("(...)"),
            Object::Func(..) => out.append("#<func>"),
        }
    }

    /// Appends the inside of a list's parentheses, from this pair on.
    fn write_list(&self, out: &mut String)
        ensures
            final(out)@ == old(out)@ + print_list(self@),
        decreases *self, 0nat,
    {
        match self {
            Object::Cons(a, d) => {
                let s = a.to_string();
                out.append(s.as_str());
                match &**d {
                    Object::Nil => {
                        assert(d@ == Val::Nil);
                        assert(print_list(self@) =~= print_val(a@));
                    },
                    _ => {
                        out.append(" ");
                        d.write_list(out);
                    },
                }
            },
            _ => {
                out.append(". ");
                self.write_atom(out);
            },
        }
    }

    /// Whether the value is anything but a pair.
    pub fn is_atom(&self) -> (r: bool)
        ensures
            r == !(self@ is Pair),
    {
        match self {
            Object::Cons(..) => false,
            _ => true,
        }
    }

    /// Whether the value is `Nil`.
    pub fn is_null(&self) -> (r: bool)
        ensures
            r == (self@ is Nil),
    {
        match self {
            Object::Nil => true,
            _ => false,
        }
    }

    /// Truthiness: every value but `Nil` is true.
    pub fn to_bool(&self) -> (r: bool)
        ensures
            r == !(self@ is Nil),
    {
        !self.is_null()
    }

    /// The integer that the value holds; a type error for any other value.
    pub fn to_number(&self) -> (r: Result<i32, Error>)
        ensures
            match self@ {
                Val::Num(n) => r == Ok::<i32, Error>(n),
                _ => r is Err && r->Err_0@ == fault(ErrorKind::TypeError, "not a number"@),
            },
    {
        match self {
            Object::Number(n) => Ok(*n),
            _ => Err(error(ErrorKind::TypeError, "not a number")),
        }
    }

    /// The first component of a pair (`Nil` of `Nil`); a type error otherwise.
    pub fn car(&self) -> (r: Result<Rc<Object>, Error>)
        ensures
            match car_of(self@) {
                Some(v) => r is Ok && r->Ok_0@ == v,
                None => r is Err && r->Err_0@ == fault(ErrorKind::TypeError, "not a pair"@),
            },
    {
        match self {
            Object::Nil => Ok(Rc::new(Object::Nil)),
            Object::Cons(a, _) => Ok(a.clone()),
            _ => Err(error(ErrorKind::TypeError, "not a pair")),
        }
    }

    /// The second component of a pair (`Nil` of `Nil`); a type error otherwise.
    pub fn cdr(&self) -> (r: Result<Rc<Object>, Error>)
        ensures
            match cdr_of(self@) {
                Some(v) => r is Ok && r->Ok_0@ == v,
                None => r is Err && r->Err_0@ == fault(ErrorKind::TypeError, "not a pair"@),
            },
    {
        match self {
            Object::Nil => Ok(Rc::new(Object::Nil)),
            Object::Cons(_, d) => Ok(d.clone()),
            _ => Err(error(ErrorKind::TypeError, "not a pair")),
        }
    }
}

/// The one-character string of a decimal digit.
fn digit_str(d: u32) -> (r: &'static str)
    requires
        d < 10,
    ensures
        r@ == seq![digit_char(d as nat)],
{
    match d {
        0 => {
            proof {
                reveal_strlit("0");
            }
            "0"
        },
        1 => {
            proof {
                reveal_strlit("1");
            }
            "1"
        },
        2 => {
            proof {
                reveal_strlit("2");
            }
            "2"
        },
        3 => {
            proof {
                reveal_strlit("3");
            }
            "3"
        },
        4 => {
            proof {
                reveal_strlit("4");
            }
            "4"
        },
        5 => {
            proof {
                reveal_strlit("5");
            }
            "5"
        },
        6 => {
            proof {
                reveal_strlit("6");
            }
            "6"
        },
        7 => {
            proof {
                reveal_strlit("7");
            }
            "7"
        },
        8 => {
            proof {
                reveal_strlit("8");
            }
            "8"
        },
        _ => {
            proof {
                reveal_strlit("9");
            }
            "9"
        },
    }
}

/// Appends the decimal digits of `m`.
fn write_digits(m: u32, out: &mut String)
    ensures
        final(out)@ == old(out)@ + digits(m as nat),
    decreases m,
{
    if m >= 10 {
        write_digits(m / 10, out);
    }
    out.append(digit_str(m % 10));
}

/// Appends an integer in decimal.
fn write_decimal(n: i32, out: &mut String)
    ensures
        final(out)@ == old(out)@ + decimal(n as int),
{
    if n < 0 {
        let ghost before = out@;
        out.append("-");
        let m: u32 = (0 - (n as i64)) as u32;
        write_digits(m, out);
        proof {
            reveal_strlit("-");
            assert(out@ =~= before + decimal(n as int));
        }
    } else {
        write_digits(n as u32, out);
    }
}

/// `T` for true, `Nil` for false.
pub fn from_bool(b: bool) -> (r: Object)
    ensures
        r@ == val_of_bool(b),
{
    if b {
        Object::T
    } else {
        Object::Nil
    }
}

/// An integer value.
pub fn number(num: i32) -> (r: Object)
    ensures
        r@ == Val::Num(num),
{
    Object::Number(num)
}

/// A symbol with the given name.
pub fn symbol(name: &str) -> (r: Object)
    ensures
        r@ == Val::Sym(name@),
{
    Object::Symbol(String::from_str(name))
}

/// The pair of two values.
pub fn cons(car: Rc<Object>, cdr: Rc<Object>) -> (r: Object)
    ensures
        r@ == Val::Pair(Box::new(car@), Box::new(cdr@)),
{
    Object::Cons(car, cdr)
}

/// The elements of a proper list, in order; a type error for an improper list.
pub fn list_to_vec(obj: &Object) -> (r: Result<Vec<Rc<Object>>, Error>)
    ensures
        match list_elems(obj@) {
            Some(s) => r is Ok && views(r->Ok_0@) == s,
            None => r is Err && r->Err_0@ == fault(ErrorKind::TypeError, "improper list"@),
        },
{
    let mut ret: Vec<Rc<Object>> = Vec::new();
    let mut cur = obj;
    loop
        invariant
            list_elems(obj@) == match list_elems(cur@) {
                Some(s) => Some(views(ret@) + s),
                None => None::<Seq<Val>>,
            },
        decreases *cur,
    {
        match cur {
            Object::Nil => {
                proof {
                    assert(views(ret@) + Seq::<Val>::empty() =~= views(ret@));
                }
                return Ok(ret);
            },
            Object::Cons(a, d) => {
                let ghost before = ret@;
                ret.push(a.clone());
                proof {
                    assert(views(ret@) =~= views(before) + seq![a@]);
                    if let Some(s) = list_elems(d@) {
                        assert(views(before) + (seq![a@] + s) =~= views(ret@) + s);
                    }
                }
                cur = &**d;
            },
            _ => {
                return Err(error(ErrorKind::TypeError, "improper list"));
            },
        }
    }
}

} // verus!
