use vstd::prelude::*;
use crate::expr::{Native, Oexp, RomeError, Term, Fault, views, lemma_views_index, lemma_views_len};
use crate::model::Model;
use crate::number::Decimal;
use crate::parser::text_is;
use std::rc::Rc;
use crate::expr::Lambda;

verus! {

/// An operator error with the message `msg`.
pub open spec fn op(msg: &str) -> Fault {
    Fault::Operator(msg@)
}

/// The message for a name that the table does not bind.
pub open spec fn unbound_message(k: Seq<char>) -> Seq<char> {
    "Unexpected symbol k='"@ + k + "'"@
}

/// Whether `t` is the symbol `w`.
pub open spec fn is_word(t: Term, w: Seq<char>) -> bool {
    t == Term::Symbol(w)
}

/// What evaluating `e` against the table `env` gives, and the table after.
pub open spec fn eval_spec(e: Term, env: Map<Seq<char>, Term>) -> (
    Result<Term, Fault>,
    Map<Seq<char>, Term>,
)
    decreases e, 3int, 0int,
{
    match e {
        Term::Symbol(k) => if env.contains_key(k) {
            (Ok(env[k]), env)
        } else {
            (Err(Fault::Operator(unbound_message(k))), env)
        },
        Term::Number(_) => (Ok(e), env),
        Term::Boolean(_) => (Ok(e), env),
        Term::List(items) => if items.len() == 0 {
            (Err(op("Did not expect an empty list here")), env)
        } else {
            eval_list_spec(items, env)
        },
        Term::Function(_) => (Err(op("I don't know this function")), env),
        Term::FunctionDef(_, _) => (
            Err(op("I didn't expect this function definition here")),
            env,
        ),
    }
}

/// A non-empty list: a special form when its last element is `?`, `.` or
/// `fn`; else an application of its last element to the others.
pub open spec fn eval_list_spec(items: Seq<Term>, env: Map<Seq<char>, Term>) -> (
    Result<Term, Fault>,
    Map<Seq<char>, Term>,
)
    decreases items, 2int, 0int,
{
    if items.len() == 0 {
        (Err(op("Did not expect an empty list here")), env)
    } else if is_word(items.last(), "?"@) {
        query_spec(items, env)
    } else if is_word(items.last(), "."@) {
        define_spec(items, env)
    } else if is_word(items.last(), "fn"@) {
        (function_def_spec(items), env)
    } else {
        let (f, env1) = eval_spec(items[items.len() - 1], env);
        match f {
            Err(err) => (Err(err), env1),
            Ok(Term::Function(n)) => {
                let (args, env2) = eval_args_spec(items, (items.len() - 1) as nat, env1);
                match args {
                    Ok(vals) => (apply_spec(n, vals), env2),
                    Err(err) => (Err(err), env2),
                }
            },
            Ok(_) => (Err(op("The last form must be a function")), env1),
        }
    }
}

/// Evaluates `items[0]`, ..., `items[n - 1]` in turn, stopping at the first
/// error.
pub open spec fn eval_args_spec(items: Seq<Term>, n: nat, env: Map<Seq<char>, Term>) -> (
    Result<Seq<Term>, Fault>,
    Map<Seq<char>, Term>,
)
    decreases items, 0int, n,
{
    if n == 0 || n > items.len() {
        (Ok(Seq::empty()), env)
    } else {
        let (prev, env1) = eval_args_spec(items, (n - 1) as nat, env);
        match prev {
            Err(err) => (Err(err), env1),
            Ok(vals) => {
                let (v, env2) = eval_spec(items[n - 1], env1);
                match v {
                    Ok(x) => (Ok(vals.push(x)), env2),
                    Err(err) => (Err(err), env2),
                }
            },
        }
    }
}

/// The numbers among `vals`, in order, when every one of them is a number.
pub open spec fn numbers_spec(vals: Seq<Term>) -> Option<Seq<Decimal>>
    decreases vals.len(),
{
    if vals.len() == 0 {
        Some(Seq::empty())
    } else {
        match (numbers_spec(vals.drop_last()), vals.last()) {
            (Some(ds), Term::Number(d)) => Some(ds.push(d)),
            _ => None,
        }
    }
}

/// The sum of `ds`, from zero, left to right; `None` when a step fails.
pub open spec fn sum_spec(ds: Seq<Decimal>) -> Option<Decimal>
    decreases ds.len(),
{
    if ds.len() == 0 {
        Some(Decimal { mantissa: 0, scale: 0 })
    } else {
        match sum_spec(ds.drop_last()) {
            Some(a) => a.sum_spec(ds.last()),
            None => None,
        }
    }
}

/// Applies a built-in function to evaluated arguments.
pub open spec fn apply_spec(n: Native, vals: Seq<Term>) -> Result<Term, Fault> {
    match n {
        Native::Add => match numbers_spec(vals) {
            None => Err(Fault::Reader("expected a number"@)),
            Some(ds) => match sum_spec(ds) {
                Some(s) => Ok(Term::Number(s)),
                None => Err(op("number out of range")),
            },
        },
    }
}

/// `(subject verb object ... ?)`.
pub open spec fn query_spec(items: Seq<Term>, env: Map<Seq<char>, Term>) -> (
    Result<Term, Fault>,
    Map<Seq<char>, Term>,
)
    decreases items, 1int, 1int,
{
    let a = items.len() - 1;
    if a < 1 {
        (Err(op("expected a subject as first form in conditional")), env)
    } else if a < 2 {
        (Err(op("expected a verb as second form in conditional")), env)
    } else if a < 3 {
        (Err(op("expected an object as third form in conditional")), env)
    } else if is_word(items[1], ">"@) {
        (gt_spec(items[0], items[2]), env)
    } else if is_word(items[1], "if"@) {
        if a < 4 {
            (Err(op("expected an else/or branch to if")), env)
        } else {
            if_spec(items, env)
        }
    } else {
        (Err(Fault::NotImplemented("this query is not implemented"@)), env)
    }
}

/// `(subject > object ?)`, on the two forms as written.
pub open spec fn gt_spec(subject: Term, object: Term) -> Result<Term, Fault> {
    match (subject, object) {
        (Term::Number(a), Term::Number(b)) => if a.in_range() && b.in_range() {
            Ok(Term::Boolean(a.greater_spec(b)))
        } else {
            Err(op("number out of range"))
        },
        _ => Err(op("Can compare only two numbers (as of now)")),
    }
}

/// `(then-form verb condition keyword [else-form] ?)` with the verb `if`:
/// the keyword is `else` (or the reserved `or`).
pub open spec fn if_spec(items: Seq<Term>, env: Map<Seq<char>, Term>) -> (
    Result<Term, Fault>,
    Map<Seq<char>, Term>,
)
    decreases items, 1int, 0int,
{
    if items.len() < 5 {
        (Err(op("expected an else/or branch to if")), env)
    } else {
        let a = items.len() - 1;
        let (p, env1) = eval_spec(items[2], env);
        match p {
            Err(err) => (Err(err), env1),
            Ok(Term::Boolean(true)) => eval_spec(items[0], env1),
            Ok(Term::Boolean(false)) => {
                match items[3] {
                    Term::Symbol(k) => if k == "else"@ {
                        if a < 5 {
                            (Err(op("...else what?...")), env1)
                        } else {
                            eval_spec(items[4], env1)
                        }
                    } else if k == "or"@ {
                        (Err(Fault::NotImplemented("or-branches are not implemented"@)), env1)
                    } else {
                        (Err(op("Expected else or or after if condition")), env1)
                    },
                    _ => (Err(Fault::Reader("could not read this keyword"@)), env1),
                }
            },
            Ok(_) => (Err(op("Unexpected test form")), env1),
        }
    }
}

/// `(name = object .)`: binds `name` to the value of `object`, and gives back
/// the form `name`.
pub open spec fn define_spec(items: Seq<Term>, env: Map<Seq<char>, Term>) -> (
    Result<Term, Fault>,
    Map<Seq<char>, Term>,
)
    decreases items, 1int, 0int,
{
    let a = items.len() - 1;
    if a < 1 {
        (Err(op("expected a subject as first form in definition")), env)
    } else {
        match items[0] {
            Term::Symbol(name) => if a < 2 {
                (Err(op("expected a verb as second form in definition")), env)
            } else if a < 3 {
                (Err(op("expected an object as third form in definition")), env)
            } else if a > 3 {
                (
                    Err(
                        op(
                            "A definition can have only subject, verb and object. I can't handle more...",
                        ),
                    ),
                    env,
                )
            } else if is_word(items[1], "="@) {
                let (o, env1) = eval_spec(items[2], env);
                match o {
                    Ok(v) => (Ok(items[0]), env1.insert(name, v)),
                    Err(err) => (Err(err), env1),
                }
            } else {
                (Err(Fault::NotImplemented("this definition is not implemented"@)), env)
            },
            _ => (Err(op("Expected subject to be an oexp of type symbol")), env),
        }
    }
}

/// `(params => body fn)`: an anonymous function, its forms unevaluated.
pub open spec fn function_def_spec(items: Seq<Term>) -> Result<Term, Fault> {
    let a = items.len() - 1;
    if a < 2 {
        Err(op("expected a verb as second form in conditional"))
    } else if is_word(items[1], "=>"@) {
        if a < 3 {
            Err(op("expected function body as third form in function def"))
        } else {
            Ok(Term::FunctionDef(Box::new(items[0]), Box::new(items[2])))
        }
    } else {
        Err(Fault::NotImplemented("named functions are not implemented"@))
    }
}

/// `r` is the result that `s` describes, and `env` the table after it.
pub open spec fn evaluated(
    r: Result<Oexp, RomeError>,
    env: Map<Seq<char>, Term>,
    s: (Result<Term, Fault>, Map<Seq<char>, Term>),
) -> bool {
    env == s.1 && match (r, s.0) {
        (Ok(v), Ok(t)) => v@ == t,
        (Err(e), Err(f)) => e@ == f,
        _ => false,
    }
}

/// `r` is the result that `s` describes.
pub open spec fn returned(r: Result<Oexp, RomeError>, s: Result<Term, Fault>) -> bool {
    match (r, s) {
        (Ok(v), Ok(t)) => v@ == t,
        (Err(e), Err(f)) => e@ == f,
        _ => false,
    }
}

proof fn lemma_items(list: Seq<Oexp>)
    ensures
        views(list).len() == list.len(),
        forall|i: int| 0 <= i < list.len() ==> #[trigger] views(list)[i] == list[i]@,
{
    lemma_views_len(list);
    assert forall|i: int| 0 <= i < list.len() implies #[trigger] views(list)[i] == list[i]@ by {
        lemma_views_index(list, i);
    }
}

proof fn lemma_args_error_stays(items: Seq<Term>, k: nat, m: nat, env: Map<Seq<char>, Term>)
    requires
        0 < k <= m <= items.len(),
        eval_args_spec(items, k, env).0 is Err,
    ensures
        eval_args_spec(items, m, env) == eval_args_spec(items, k, env),
    decreases m,
{
    if m > k {
        lemma_args_error_stays(items, k, (m - 1) as nat, env);
    }
}

fn operator_error(msg: &str) -> (r: RomeError)
    ensures
        r@ == op(msg),
{
    RomeError::OperatorError(String::from_str(msg))
}

fn is_word_exec(e: &Oexp, w: &str) -> (r: bool)
    ensures
        r == is_word(e@, w@),
{
    match e {
        Oexp::Symbol(s) => text_is(s.as_str(), w),
        _ => false,
    }
}

/// Evaluates `exp` against the symbol table `env`.
///
/// Evaluation recurses once per level of list nesting, so a very deeply
/// nested expression exhausts the stack.
pub fn eval(exp: &Oexp, env: &mut Model) -> (r: Result<Oexp, RomeError>)
    requires
        old(env).wf(),
    ensures
        final(env).wf(),
        evaluated(r, final(env)@, eval_spec(exp@, old(env)@)),
    decreases exp, 3int, 0int,
{
    match exp {
        Oexp::Symbol(k) => match env.lookup(k) {
            Some(v) => Ok(v),
            None => {
                let mut m = String::from_str("Unexpected symbol k='");
                m.append(k.as_str());
                m.append("'");
                Err(RomeError::OperatorError(m))
            },
        },
        Oexp::Number(d) => Ok(Oexp::Number(*d)),
        Oexp::Boolean(b) => Ok(Oexp::Boolean(*b)),
        Oexp::List(list) => {
            proof {
                lemma_items(list@);
            }
            if list.len() == 0 {
                return Err(operator_error("Did not expect an empty list here"));
            }
            proof {
                assert(decreases_to!(*exp => (*exp)->List_0));
            }
            eval_list(list, env)
        },
        Oexp::Function(_) => Err(operator_error("I don't know this function")),
        Oexp::FunctionDef(_) => Err(operator_error("I didn't expect this function definition here")),
    }
}

fn eval_list(list: &Vec<Oexp>, env: &mut Model) -> (r: Result<Oexp, RomeError>)
    requires
        old(env).wf(),
        list.len() > 0,
    ensures
        final(env).wf(),
        evaluated(r, final(env)@, eval_list_spec(views(list@), old(env)@)),
    decreases list, 2int, 0int,
{
    proof {
        lemma_items(list@);
    }
    let len = list.len();
    let last_form = &list[len - 1];
    match eval_built_in_form(last_form, list, env) {
        Some(res) => res,
        None => {
            proof {
                assert(decreases_to!(*list => list@));
                assert(decreases_to!(list@ => list@[len - 1]));
            }
            let func_eval = eval(last_form, env);
            match func_eval {
                Err(e) => Err(e),
                Ok(Oexp::Function(f)) => {
                    let args = eval_args(list, len - 1, env);
                    match args {
                        Ok(vals) => apply_native(f, &vals),
                        Err(e) => Err(e),
                    }
                },
                Ok(_) => Err(operator_error("The last form must be a function")),
            }
        },
    }
}

/// The special forms: `None` when the last element names none of them.
fn eval_built_in_form(exp: &Oexp, list: &Vec<Oexp>, env: &mut Model) -> (r: Option<
    Result<Oexp, RomeError>,
>)
    requires
        old(env).wf(),
        list.len() > 0,
        *exp == list[list.len() - 1],
    ensures
        final(env).wf(),
        r is None <==> !(is_word(exp@, "?"@) || is_word(exp@, "."@) || is_word(exp@, "fn"@)),
        r is None ==> *final(env) == *old(env),
        r matches Some(res) ==> evaluated(res, final(env)@, eval_list_spec(views(list@), old(env)@)),
    decreases list, 1int, 2int,
{
    proof {
        lemma_items(list@);
    }
    if is_word_exec(exp, "?") {
        Some(eval_query(list, env))
    } else if is_word_exec(exp, ".") {
        Some(eval_define(list, env))
    } else if is_word_exec(exp, "fn") {
        Some(eval_function_def(list))
    } else {
        None
    }
}

/// Evaluates the first `n` elements of `list` in turn.
fn eval_args(list: &Vec<Oexp>, n: usize, env: &mut Model) -> (r: Result<Vec<Oexp>, RomeError>)
    requires
        old(env).wf(),
        n <= list.len(),
    ensures
        final(env).wf(),
        final(env)@ == eval_args_spec(views(list@), n as nat, old(env)@).1,
        match (r, eval_args_spec(views(list@), n as nat, old(env)@).0) {
            (Ok(vs), Ok(ts)) => views(vs@) == ts,
            (Err(e), Err(f)) => e@ == f,
            _ => false,
        },
    decreases list, 0int, n,
{
    proof {
        lemma_items(list@);
    }
    let ghost items = views(list@);
    let ghost env0 = old(env)@;
    let mut out: Vec<Oexp> = Vec::new();
    let mut i: usize = 0;
    assert(views(out@) =~= Seq::<Term>::empty());
    while i < n
        invariant
            n <= list.len(),
            items == views(list@),
            items.len() == list.len(),
            forall|j: int| 0 <= j < list.len() ==> #[trigger] items[j] == list[j]@,
            i <= n,
            env.wf(),
            env0 == old(env)@,
            eval_args_spec(items, i as nat, env0) == (
                Ok::<Seq<Term>, Fault>(views(out@)),
                env@,
            ),
        decreases n - i,
    {
        proof {
            assert(decreases_to!(*list => list@));
            assert(decreases_to!(list@ => list@[i as int]));
        }
        let ghost env_before = env@;
        assert(items[i as int] == list[i as int]@);
        match eval(&list[i], env) {
            Ok(v) => {
                let ghost before = out@;
                out.push(v);
                assert(out@.drop_last() =~= before);
            },
            Err(e) => {
                proof {
                    assert(eval_spec(items[i as int], env_before).0 is Err);
                    assert(eval_args_spec(items, (i + 1) as nat, env0) == (
                        Err::<Seq<Term>, Fault>(e@),
                        env@,
                    ));
                    lemma_args_error_stays(items, (i + 1) as nat, n as nat, env0);
                }
                return Err(e);
            },
        }
        i = i + 1;
    }
    Ok(out)
}

/// Applies a built-in function to evaluated arguments.
fn apply_native(f: Native, args: &Vec<Oexp>) -> (r: Result<Oexp, RomeError>)
    ensures
        returned(r, apply_spec(f, views(args@))),
{
    match f {
        Native::Add => match parse_list_of_numbers(args) {
            Err(e) => Err(e),
            Ok(ds) => {
                let mut acc = Decimal { mantissa: 0, scale: 0 };
                let mut ok = true;
                let mut i: usize = 0;
                assert(ds@.take(0) =~= Seq::<Decimal>::empty());
                while i < ds.len()
                    invariant
                        i <= ds.len(),
                        ok <==> sum_spec(ds@.take(i as int)) is Some,
                        ok ==> sum_spec(ds@.take(i as int)) == Some(acc),
                    decreases ds.len() - i,
                {
                    assert(ds@.take(i + 1).drop_last() =~= ds@.take(i as int));
                    if ok {
                        match acc.checked_add(&ds[i]) {
                            Some(s) => {
                                acc = s;
                            },
                            None => {
                                ok = false;
                            },
                        }
                    }
                    i = i + 1;
                }
                assert(ds@.take(ds.len() as int) =~= ds@);
                if ok {
                    Ok(Oexp::Number(acc))
                } else {
                    Err(operator_error("number out of range"))
                }
            },
        },
    }
}

/// The numbers that `args` holds, when each of them is a number.
fn parse_list_of_numbers(args: &Vec<Oexp>) -> (r: Result<Vec<Decimal>, RomeError>)
    ensures
        match (r, numbers_spec(views(args@))) {
            (Ok(ds), Some(s)) => ds@ == s,
            (Err(e), None) => e@ == Fault::Reader("expected a number"@),
            _ => false,
        },
{
    proof {
        lemma_items(args@);
    }
    let ghost items = views(args@);
    let mut ds: Vec<Decimal> = Vec::new();
    let mut ok = true;
    let mut i: usize = 0;
    assert(items.take(0) =~= Seq::<Term>::empty());
    while i < args.len()
        invariant
            items == views(args@),
            items.len() == args.len(),
            forall|j: int| 0 <= j < args.len() ==> #[trigger] items[j] == args[j]@,
            i <= args.len(),
            ok <==> numbers_spec(items.take(i as int)) is Some,
            ok ==> numbers_spec(items.take(i as int)) == Some(ds@),
        decreases args.len() - i,
    {
        assert(items.take(i + 1).drop_last() =~= items.take(i as int));
        assert(items.take(i + 1).last() == args[i as int]@);
        if ok {
            match parse_single_number(&args[i]) {
                Some(d) => {
                    ds.push(d);
                },
                None => {
                    ok = false;
                },
            }
        }
        i = i + 1;
    }
    assert(items.take(args.len() as int) =~= items);
    if ok {
        Ok(ds)
    } else {
        Err(RomeError::ReaderError(String::from_str("expected a number")))
    }
}

fn parse_single_number(exp: &Oexp) -> (r: Option<Decimal>)
    ensures
        r == (match exp@ {
            Term::Number(d) => Some(d),
            _ => None,
        }),
{
    match exp {
        Oexp::Number(d) => Some(*d),
        _ => None,
    }
}

/// `(subject verb object ... ?)`.
fn eval_query(list: &Vec<Oexp>, env: &mut Model) -> (r: Result<Oexp, RomeError>)
    requires
        old(env).wf(),
        list.len() > 0,
    ensures
        final(env).wf(),
        evaluated(r, final(env)@, query_spec(views(list@), old(env)@)),
    decreases list, 1int, 1int,
{
    proof {
        lemma_items(list@);
    }
    let a = list.len() - 1;
    if a < 1 {
        return Err(operator_error("expected a subject as first form in conditional"));
    }
    if a < 2 {
        return Err(operator_error("expected a verb as second form in conditional"));
    }
    if a < 3 {
        return Err(operator_error("expected an object as third form in conditional"));
    }
    if is_word_exec(&list[1], ">") {
        eval_gt_query(&list[0], &list[2])
    } else if is_word_exec(&list[1], "if") {
        if a < 4 {
            return Err(operator_error("expected an else/or branch to if"));
        }
        eval_if_query(list, env)
    } else {
        Err(RomeError::NotImplemented(String::from_str("this query is not implemented")))
    }
}

fn eval_gt_query(subject: &Oexp, object: &Oexp) -> (r: Result<Oexp, RomeError>)
    ensures
        returned(r, gt_spec(subject@, object@)),
{
    match (subject, object) {
        (Oexp::Number(a), Oexp::Number(b)) => match a.greater(b) {
            Some(g) => Ok(Oexp::Boolean(g)),
            None => Err(operator_error("number out of range")),
        },
        _ => Err(operator_error("Can compare only two numbers (as of now)")),
    }
}

fn eval_if_query(list: &Vec<Oexp>, env: &mut Model) -> (r: Result<Oexp, RomeError>)
    requires
        old(env).wf(),
        list.len() >= 5,
    ensures
        final(env).wf(),
        evaluated(r, final(env)@, if_spec(views(list@), old(env)@)),
    decreases list, 1int, 0int,
{
    proof {
        lemma_items(list@);
        assert(decreases_to!(*list => list@));
        assert(decreases_to!(list@ => list@[2]));
        assert(decreases_to!(list@ => list@[0]));
    }
    let a = list.len() - 1;
    let predicate = eval(&list[2], env)?;
    match predicate {
        Oexp::Boolean(true) => eval(&list[0], env),
        Oexp::Boolean(false) => {
            match &list[3] {
                Oexp::Symbol(k) => {
                    if text_is(k.as_str(), "else") {
                        if a < 5 {
                            return Err(operator_error("...else what?..."));
                        }
                        proof {
                            assert(decreases_to!(list@ => list@[4]));
                        }
                        eval(&list[4], env)
                    } else if text_is(k.as_str(), "or") {
                        Err(RomeError::NotImplemented(String::from_str("or-branches are not implemented")))
                    } else {
                        Err(operator_error("Expected else or or after if condition"))
                    }
                },
                _ => Err(RomeError::ReaderError(String::from_str("could not read this keyword"))),
            }
        },
        _ => Err(operator_error("Unexpected test form")),
    }
}

/// `(name = object .)`.
fn eval_define(list: &Vec<Oexp>, env: &mut Model) -> (r: Result<Oexp, RomeError>)
    requires
        old(env).wf(),
        list.len() > 0,
    ensures
        final(env).wf(),
        evaluated(r, final(env)@, define_spec(views(list@), old(env)@)),
    decreases list, 1int, 0int,
{
    proof {
        lemma_items(list@);
    }
    let a = list.len() - 1;
    if a < 1 {
        return Err(operator_error("expected a subject as first form in definition"));
    }
    let subject = &list[0];
    let name_str = match subject {
        Oexp::Symbol(s) => s.clone(),
        _ => {
            return Err(operator_error("Expected subject to be an oexp of type symbol"));
        },
    };
    if a < 2 {
        return Err(operator_error("expected a verb as second form in definition"));
    }
    if a < 3 {
        return Err(operator_error("expected an object as third form in definition"));
    }
    if a > 3 {
        return Err(
            operator_error(
                "A definition can have only subject, verb and object. I can't handle more...",
            ),
        );
    }
    if is_word_exec(&list[1], "=") {
        proof {
            assert(decreases_to!(*list => list@));
            assert(decreases_to!(list@ => list@[2]));
        }
        let object_eval = eval(&list[2], env)?;
        env.define(name_str, object_eval);
        Ok(subject.copy())
    } else {
        Err(RomeError::NotImplemented(String::from_str("this definition is not implemented")))
    }
}

/// `(params => body fn)`.
fn eval_function_def(list: &Vec<Oexp>) -> (r: Result<Oexp, RomeError>)
    requires
        list.len() > 0,
    ensures
        returned(r, function_def_spec(views(list@))),
{
    proof {
        lemma_items(list@);
    }
    let a = list.len() - 1;
    if a < 2 {
        return Err(operator_error("expected a verb as second form in conditional"));
    }
    if is_word_exec(&list[1], "=>") {
        if a < 3 {
            return Err(operator_error("expected function body as third form in function def"));
        }
        let params = list[0].copy();
        let body = list[2].copy();
        Ok(Oexp::FunctionDef(Lambda { params_exp: Rc::new(params), body_exp: Rc::new(body) }))
    } else {
        Err(RomeError::NotImplemented(String::from_str("named functions are not implemented")))
    }
}

} // verus!
