use vstd::prelude::*;
use crate::expr::{Oexp, RomeError, Term, Fault, views};
use crate::number::{literal_value, parse_decimal};
use crate::tokenizer::texts;
use vstd::slice::slice_subrange;

verus! {

/// What one token denotes on its own.
pub open spec fn atom_spec(tok: Seq<char>) -> Term {
    if tok == "true"@ {
        Term::Boolean(true)
    } else if tok == "false"@ {
        Term::Boolean(false)
    } else {
        match literal_value(tok) {
            Some(d) => Term::Number(d),
            None => Term::Symbol(tok),
        }
    }
}

/// Reads one expression from the front of `t`: the expression, and how many
/// tokens it took.
pub open spec fn parse_spec(t: Seq<Seq<char>>) -> Result<(Term, nat), Fault>
    decreases t.len(), 0int,
{
    if t.len() == 0 {
        Err(Fault::Reader("Could not parse token"@))
    } else if t[0] == "("@ {
        match read_seq_spec(t.drop_first(), 0, Seq::empty()) {
            Ok((e, m)) => Ok((e, m + 1)),
            Err(f) => Err(f),
        }
    } else if t[0] == ")"@ {
        Err(Fault::Reader("unexpectedly encountered a closing parens"@))
    } else {
        Ok((atom_spec(t[0]), 1))
    }
}

/// Reads the rest of a list whose `(` has been read, from position `pos` of
/// `t`, with `acc` the elements read so far; the count is of the tokens taken
/// from `t`, up to and including the closing `)`.
pub open spec fn read_seq_spec(t: Seq<Seq<char>>, pos: nat, acc: Seq<Term>) -> Result<
    (Term, nat),
    Fault,
>
    decreases t.len() - pos, 1int,
{
    if pos >= t.len() {
        Err(Fault::Reader("could not find closing parens"@))
    } else if t[pos as int] == ")"@ {
        Ok((Term::List(acc), pos + 1))
    } else {
        match parse_spec(t.skip(pos as int)) {
            Ok((e, m)) => if 0 < m && pos + m <= t.len() {
                read_seq_spec(t, pos + m, acc.push(e))
            } else {
                Err(Fault::Reader("could not find closing parens"@))
            },
            Err(f) => Err(f),
        }
    }
}

/// A successful read takes at least one token, and no more than there are.
pub proof fn lemma_parse_consumes(t: Seq<Seq<char>>)
    ensures
        parse_spec(t) matches Ok((_, m)) ==> 0 < m <= t.len(),
    decreases t.len(), 0int,
{
    if t.len() > 0 && t[0] == "("@ {
        lemma_read_seq_consumes(t.drop_first(), 0, Seq::empty());
    }
}

pub proof fn lemma_read_seq_consumes(t: Seq<Seq<char>>, pos: nat, acc: Seq<Term>)
    ensures
        read_seq_spec(t, pos, acc) matches Ok((_, m)) ==> pos < m <= t.len(),
    decreases t.len() - pos, 1int,
{
    if pos < t.len() && t[pos as int] != ")"@ {
        lemma_parse_consumes(t.skip(pos as int));
        match parse_spec(t.skip(pos as int)) {
            Ok((e, m)) => if 0 < m && pos + m <= t.len() {
                lemma_read_seq_consumes(t, pos + m, acc.push(e));
            },
            Err(_) => {},
        }
    }
}

/// Whether `s` reads `lit`.
pub fn text_is(s: &str, lit: &str) -> (r: bool)
    ensures
        r == (s@ == lit@),
{
    let a = String::from_str(s);
    let b = String::from_str(lit);
    a == b
}

/// `r` is the outcome that `s` describes: the expression, and the tokens
/// after the `m` it took; or the error.
pub open spec fn parsed(
    r: Result<(Oexp, &[String]), RomeError>,
    tokens: Seq<String>,
    s: Result<(Term, nat), Fault>,
) -> bool {
    match (r, s) {
        (Ok((e, rest)), Ok((v, m))) => e@ == v && rest@ == tokens.skip(m as int),
        (Err(err), Err(f)) => err@ == f,
        _ => false,
    }
}

/// Reads one expression from the front of `tokens`, and returns it with the
/// tokens that follow it.
///
/// Reading recurses once per open parenthesis, so very deep nesting exhausts
/// the stack.
pub fn parse<'a>(tokens: &'a [String]) -> (r: Result<(Oexp, &'a [String]), RomeError>)
    ensures
        parsed(r, tokens@, parse_spec(texts(tokens@))),
    decreases tokens@.len(), 0int,
{
    let ghost t = texts(tokens@);
    if tokens.len() == 0 {
        return Err(RomeError::ReaderError(String::from_str("Could not parse token")));
    }
    let token = &tokens[0];
    assert(t[0] == token@);
    let rest = slice_subrange(tokens, 1, tokens.len());
    if text_is(token.as_str(), "(") {
        assert(texts(rest@) =~= t.drop_first());
        let r = read_seq(rest);
        proof {
            lemma_read_seq_consumes(t.drop_first(), 0, Seq::empty());
            match read_seq_spec(t.drop_first(), 0, Seq::empty()) {
                Ok((_, m)) => {
                    assert(rest@.skip(m as int) =~= tokens@.skip(m + 1int));
                },
                Err(_) => {},
            }
        }
        r
    } else if text_is(token.as_str(), ")") {
        Err(RomeError::ReaderError(String::from_str("unexpectedly encountered a closing parens")))
    } else {
        assert(rest@ =~= tokens@.skip(1));
        Ok((parse_atom(token.as_str()), rest))
    }
}

/// Reads the elements of a list whose `(` has been read, up to and including
/// its closing `)`.
fn read_seq<'a>(tokens: &'a [String]) -> (r: Result<(Oexp, &'a [String]), RomeError>)
    ensures
        parsed(r, tokens@, read_seq_spec(texts(tokens@), 0, Seq::empty())),
    decreases tokens@.len(), 1int,
{
    let ghost t = texts(tokens@);
    let mut res: Vec<Oexp> = Vec::new();
    let mut rem: &[String] = tokens;
    let ghost mut pos: nat = 0;
    assert(views(res@) =~= Seq::<Term>::empty());
    assert(tokens@.skip(0) =~= tokens@);
    loop
        invariant
            t == texts(tokens@),
            pos <= tokens@.len(),
            rem@ == tokens@.skip(pos as int),
            read_seq_spec(t, pos, views(res@)) == read_seq_spec(t, 0, Seq::empty()),
        decreases rem@.len(),
    {
        if rem.len() == 0 {
            return Err(RomeError::ReaderError(String::from_str("could not find closing parens")));
        }
        let next = &rem[0];
        assert(t[pos as int] == next@);
        if text_is(next.as_str(), ")") {
            let after = slice_subrange(rem, 1, rem.len());
            assert(after@ =~= tokens@.skip(pos + 1int));
            return Ok((Oexp::List(res), after));
        }
        assert(texts(rem@) =~= t.skip(pos as int));
        proof {
            lemma_parse_consumes(t.skip(pos as int));
        }
        match parse(rem) {
            Err(e) => {
                return Err(e);
            },
            Ok((exp, new_rem)) => {
                let ghost m = parse_spec(t.skip(pos as int))->Ok_0.1;
                let ghost before = res@;
                res.push(exp);
                proof {
                    assert(res@.drop_last() =~= before);
                    assert(new_rem@ =~= tokens@.skip((pos + m) as int));
                    pos = pos + m;
                }
                rem = new_rem;
            },
        }
    }
}

/// Reads a token that is not a parenthesis.
fn parse_atom(token: &str) -> (r: Oexp)
    ensures
        r@ == atom_spec(token@),
{
    if text_is(token, "true") {
        Oexp::Boolean(true)
    } else if text_is(token, "false") {
        Oexp::Boolean(false)
    } else {
        match parse_decimal(token) {
            Some(d) => Oexp::Number(d),
            None => Oexp::Symbol(String::from_str(token)),
        }
    }
}

} // verus!
