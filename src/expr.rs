use vstd::prelude::*;
use std::rc::Rc;
use crate::number::Decimal;

verus! {

/// The functions built into the language, which no source text can write.
#[derive(Clone, Copy, Debug, PartialEq, Eq, Structural)]
pub enum Native {
    /// `+`: sums its arguments, which must all be numbers.
    Add,
}

/// An expression: both the syntax the parser builds and the values the
/// evaluator returns.
#[derive(Debug)]
pub enum Oexp {
    Boolean(bool),
    Symbol(String),
    Number(Decimal),
    List(Vec<Oexp>),
    Function(Native),
    FunctionDef(Lambda),
}

/// An anonymous function: its parameter list and body, both unevaluated and
/// shared.
#[derive(Debug)]
pub struct Lambda {
    pub params_exp: Rc<Oexp>,
    pub body_exp: Rc<Oexp>,
}

/// The errors of reading and evaluating.
#[derive(Debug)]
pub enum RomeError {
    ReaderError(String),
    OperatorError(String),
    ModelingError(String),
    EffectorError(String),
    /// A form the language reserves but does not implement yet.
    NotImplemented(String),
}

/// The mathematical value of an `Oexp`.
pub enum Term {
    Boolean(bool),
    Symbol(Seq<char>),
    Number(Decimal),
    List(Seq<Term>),
    Function(Native),
    FunctionDef(Box<Term>, Box<Term>),
}

/// The mathematical value of a `RomeError`: its kind and its message.
pub enum Fault {
    Reader(Seq<char>),
    Operator(Seq<char>),
    Modeling(Seq<char>),
    Effector(Seq<char>),
    NotImplemented(Seq<char>),
}

/// The values of a sequence of expressions.
pub open spec fn views(s: Seq<Oexp>) -> Seq<Term>
    decreases s, 0int,
{
    if s.len() == 0 {
        Seq::empty()
    } else {
        views(s.drop_last()).push(s.last().view_term())
    }
}

impl Oexp {
    pub open spec fn view_term(&self) -> Term
        decreases *self, 1int,
    {
        match *self {
            Oexp::Boolean(b) => Term::Boolean(b),
            Oexp::Symbol(s) => Term::Symbol(s@),
            Oexp::Number(d) => Term::Number(d),
            Oexp::List(v) => Term::List(views(v@)),
            Oexp::Function(f) => Term::Function(f),
            Oexp::FunctionDef(l) => Term::FunctionDef(
                Box::new((*l.params_exp).view_term()),
                Box::new((*l.body_exp).view_term()),
            ),
        }
    }
}

impl View for Oexp {
    type V = Term;

    open spec fn view(&self) -> Term {
        self.view_term()
    }
}

impl View for RomeError {
    type V = Fault;

    open spec fn view(&self) -> Fault {
        match self {
            RomeError::ReaderError(m) => Fault::Reader(m@),
            RomeError::OperatorError(m) => Fault::Operator(m@),
            RomeError::ModelingError(m) => Fault::Modeling(m@),
            RomeError::EffectorError(m) => Fault::Effector(m@),
            RomeError::NotImplemented(m) => Fault::NotImplemented(m@),
        }
    }
}

/// `views` keeps the length and takes each element's value.
pub proof fn lemma_views_index(s: Seq<Oexp>, i: int)
    requires
        0 <= i < s.len(),
    ensures
        views(s).len() == s.len(),
        views(s)[i] == s[i]@,
    decreases s.len(),
{
    if i < s.len() - 1 {
        lemma_views_index(s.drop_last(), i);
    } else {
        lemma_views_len(s.drop_last());
    }
}

pub proof fn lemma_views_len(s: Seq<Oexp>)
    ensures
        views(s).len() == s.len(),
    decreases s.len(),
{
    if s.len() > 0 {
        lemma_views_len(s.drop_last());
    }
}

impl Oexp {
    /// A copy of this expression, with the same value.
    pub fn copy(&self) -> (r: Oexp)
        ensures
            r@ == self@,
        decreases self,
    {
        match self {
            Oexp::Boolean(b) => Oexp::Boolean(*b),
            Oexp::Symbol(s) => Oexp::Symbol(s.clone()),
            Oexp::Number(d) => Oexp::Number(*d),
            Oexp::List(v) => {
                let mut out: Vec<Oexp> = Vec::new();
                let mut i: usize = 0;
                while i < v.len()
                    invariant
                        i <= v.len(),
                        *self == Oexp::List(*v),
                        views(out@) == views(v@.subrange(0, i as int)),
                    decreases v.len() - i,
                {
                    proof {
                        assert(decreases_to!(*self => (*self)->List_0));
                        assert(decreases_to!(*v => v@));
                        assert(decreases_to!(v@ => v@[i as int]));
                    }
                    let item = v[i].copy();
                    let ghost before = out@;
                    out.push(item);
                    proof {
                        assert(out@.drop_last() =~= before);
                        assert(v@.subrange(0, i + 1).drop_last() =~= v@.subrange(0, i as int));
                    }
                    i = i + 1;
                }
                assert(v@.subrange(0, v.len() as int) =~= v@);
                Oexp::List(out)
            },
            Oexp::Function(f) => Oexp::Function(*f),
            Oexp::FunctionDef(l) => Oexp::FunctionDef(Lambda {
                params_exp: Rc::new((*l.params_exp).copy()),
                body_exp: Rc::new((*l.body_exp).copy()),
            }),
        }
    }
}

} // verus!
