use std::rc::Rc;
use vstd::prelude::*;
use crate::error::{Error, ErrorKind, error, fault};
use crate::object::{Object, Val, view_obj, views};

verus! {

/// One activation frame: the actuals of one call, in order.
pub type Frame = Vec<Rc<Object>>;

/// A lexical location: frame depth (0 is the innermost frame) and slot.
pub type Location = (usize, usize);

/// A persistent chain of frames. Extending it never changes an existing chain.
#[derive(Debug, PartialEq)]
pub enum Env {
    Empty,
    Frame(Frame, Rc<Env>),
}

/// The model of a frame.
pub open spec fn view_frame(f: Frame) -> Seq<Val>
    decreases f,
{
    Seq::new(f@.len(), |i: int| if 0 <= i < f@.len() { view_obj(*f@[i]) } else { Val::Nil })
}

/// A frame's model is the sequence of its values' models.
pub proof fn lemma_view_frame(f: Frame)
    ensures
        view_frame(f) == views(f@),
{
    assert(view_frame(f) =~= views(f@));
}

/// The model of an environment: its frames, innermost first.
pub open spec fn view_env(e: Env) -> Seq<Seq<Val>>
    decreases e,
{
    match e {
        Env::Empty => Seq::empty(),
        Env::Frame(f, next) => seq![view_frame(f)] + view_env(*next),
    }
}

impl View for Env {
    type V = Seq<Seq<Val>>;

    open spec fn view(&self) -> Seq<Seq<Val>> {
        view_env(*self)
    }
}

impl Env {
    /// The empty environment.
    pub fn new() -> (r: Self)
        ensures
            r@ == Seq::<Seq<Val>>::empty(),
    {
        Env::Empty
    }

    /// The environment without its innermost frame; an internal error for the
    /// empty environment.
    pub fn pop(self) -> (r: Result<Rc<Env>, Error>)
        ensures
            self@.len() > 0 ==> r is Ok && r->Ok_0@ == self@.drop_first(),
            self@.len() == 0 ==> r is Err && r->Err_0@ == fault(ErrorKind::InternalError, "Env underflow"@),
    {
        match self {
            Env::Frame(_, next) => {
                proof {
                    assert(self@.drop_first() =~= next@);
                }
                Ok(next)
            },
            _ => Err(error(ErrorKind::InternalError, "Env underflow")),
        }
    }

    /// The value in slot `j` of the frame `i` levels out from the innermost;
    /// an internal error where there is no such slot.
    pub fn locate(&self, loc: Location) -> (r: Result<Rc<Object>, Error>)
        ensures
            match locate_val(self@, loc.0 as nat, loc.1 as nat) {
                Some(v) => r is Ok && r->Ok_0@ == v,
                None => r is Err && r->Err_0@ == fault(
                    ErrorKind::InternalError,
                    "Illegal access to lexical environment"@,
                ),
            },
    {
        let (i, j) = loc;
        let mut env = self;
        let mut k: usize = 0;
        while k < i
            invariant
                i == loc.0,
                k <= i,
                k <= self@.len(),
                env@ =~= self@.skip(k as int),
            decreases i - k,
        {
            match env {
                Env::Frame(f, next) => {
                    proof {
                        assert(env@ == seq![view_frame(*f)] + next@);
                        assert forall|x: int| 0 <= x < next@.len() implies next@[x] == self@.skip(
                            k + 1,
                        )[x] by {
                            assert(env@[x + 1] == next@[x]);
                            assert(self@.skip(k as int)[x + 1] == env@[x + 1]);
                        }
                        assert(next@ =~= self@.skip(k + 1));
                    }
                    env = &**next;
                    k = k + 1;
                },
                Env::Empty => {
                    assert(env@.len() == 0);
                    assert(self@.len() == k);
                    return Err(error(ErrorKind::InternalError, "Illegal access to lexical environment"));
                },
            }
        }
        match env {
            Env::Frame(f, next) => {
                assert(env@ == seq![view_frame(*f)] + next@);
                assert(self@.skip(i as int)[0] == env@[0]);
                if j < f.len() {
                    Ok(f[j].clone())
                } else {
                    Err(error(ErrorKind::InternalError, "Illegal access to lexical environment"))
                }
            },
            Env::Empty => Err(error(ErrorKind::InternalError, "Illegal access to lexical environment")),
        }
    }
}

/// The value at a location of an environment model, if there is one.
pub open spec fn locate_val(e: Seq<Seq<Val>>, i: nat, j: nat) -> Option<Val> {
    if i < e.len() && j < e[i as int].len() {
        Some(e[i as int][j as int])
    } else {
        None
    }
}

/// The environment that extends `env` by one innermost frame. `env` itself is
/// shared, not copied.
pub fn push(env: Rc<Env>, frame: Frame) -> (r: Env)
    ensures
        r@ == seq![view_frame(frame)] + env@,
{
    Env::Frame(frame, env)
}

} // verus!
