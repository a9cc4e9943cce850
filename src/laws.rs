use vstd::prelude::*;
use crate::eval::{eval_spec, eval_list_spec, define_spec, query_spec, if_spec, is_word, unbound_message};
use crate::expr::{Fault, Term};

verus! {

/// Defining a name and then evaluating it: `(name = object .)` gives back
/// the symbol `name`, and afterwards `name` evaluates to the value that
/// `object` had.
pub proof fn law_define_then_lookup(name: Seq<char>, object: Term, env: Map<Seq<char>, Term>)
    requires
        eval_spec(object, env).0 is Ok,
    ensures
        ({
            let form = Term::List(
                seq![Term::Symbol(name), Term::Symbol("="@), object, Term::Symbol("."@)],
            );
            let (r, env1) = eval_spec(form, env);
            &&& r == Ok::<Term, Fault>(Term::Symbol(name))
            &&& eval_spec(Term::Symbol(name), env1) == (
                Ok::<Term, Fault>(eval_spec(object, env).0->Ok_0),
                env1,
            )
        }),
{
    reveal_strlit("?");
    reveal_strlit(".");
    let items = seq![Term::Symbol(name), Term::Symbol("="@), object, Term::Symbol("."@)];
    assert("."@ =~= seq!['.']);
    assert("?"@ =~= seq!['?']);
    assert("."@[0] != "?"@[0]);
    assert(items.last() == Term::Symbol("."@));
    let form = Term::List(items);
    assert(!is_word(items.last(), "?"@));
    assert(eval_spec(form, env) == eval_list_spec(items, env));
    assert(eval_list_spec(items, env) == define_spec(items, env));
    let (o, env1) = eval_spec(object, env);
    assert(define_spec(items, env) == (
        Ok::<Term, Fault>(Term::Symbol(name)),
        env1.insert(name, o->Ok_0),
    ));
}

/// A conditional `(then if condition else otherwise ?)` evaluates
/// `condition` first; when it gives `true` the result is that of `then`,
/// when it gives `false` that of `otherwise`, each in the table the
/// condition left.
pub proof fn law_if_else(
    then_form: Term,
    condition: Term,
    else_form: Term,
    env: Map<Seq<char>, Term>,
)
    requires
        eval_spec(condition, env).0 matches Ok(Term::Boolean(_)),
    ensures
        ({
            let form = Term::List(
                seq![
                    then_form,
                    Term::Symbol("if"@),
                    condition,
                    Term::Symbol("else"@),
                    else_form,
                    Term::Symbol("?"@),
                ],
            );
            let (c, env1) = eval_spec(condition, env);
            eval_spec(form, env) == if c == Ok::<Term, Fault>(Term::Boolean(true)) {
                eval_spec(then_form, env1)
            } else {
                eval_spec(else_form, env1)
            }
        }),
{
    reveal_strlit("if");
    reveal_strlit(">");
    reveal_strlit("?");
    reveal_strlit(".");
    reveal_strlit("fn");
    reveal_strlit("else");
    assert("if"@ =~= seq!['i', 'f']);
    assert(">"@ =~= seq!['>']);
    assert("?"@ =~= seq!['?']);
    assert("."@ =~= seq!['.']);
    assert("fn"@ =~= seq!['f', 'n']);
    assert("if"@.len() != ">"@.len());
    assert("?"@[0] != "."@[0]);
    assert("?"@.len() != "fn"@.len());
    let items = seq![
        then_form,
        Term::Symbol("if"@),
        condition,
        Term::Symbol("else"@),
        else_form,
        Term::Symbol("?"@),
    ];
    let form = Term::List(items);
    assert(items.last() == Term::Symbol("?"@));
    assert(eval_spec(form, env) == eval_list_spec(items, env));
    assert(eval_list_spec(items, env) == query_spec(items, env));
    assert(!is_word(items[1], ">"@));
    assert(query_spec(items, env) == if_spec(items, env));
}

/// Evaluating a name that the table does not bind fails with an operator
/// error whose message holds the name, and leaves the table as it was.
pub proof fn law_unbound_symbol(name: Seq<char>, env: Map<Seq<char>, Term>)
    requires
        !env.contains_key(name),
    ensures
        eval_spec(Term::Symbol(name), env) == (
            Err::<Term, Fault>(Fault::Operator(unbound_message(name))),
            env,
        ),
        unbound_message(name).subrange(21, 21 + name.len() as int) == name,
{
    reveal_strlit("Unexpected symbol k='");
    assert(unbound_message(name).subrange(21, 21 + name.len() as int) =~= name);
}

/// A list whose last element is no special-form keyword and evaluates to
/// something other than a function fails with "The last form must be a
/// function".
pub proof fn law_last_form_must_be_function(items: Seq<Term>, env: Map<Seq<char>, Term>)
    requires
        items.len() > 0,
        items.last() != Term::Symbol("?"@),
        items.last() != Term::Symbol("."@),
        items.last() != Term::Symbol("fn"@),
        eval_spec(items.last(), env).0 is Ok,
        !(eval_spec(items.last(), env).0->Ok_0 is Function),
    ensures
        eval_spec(Term::List(items), env) == (
            Err::<Term, Fault>(Fault::Operator("The last form must be a function"@)),
            eval_spec(items.last(), env).1,
        ),
{
}

} // verus!
