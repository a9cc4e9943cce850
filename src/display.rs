use vstd::prelude::*;
use crate::expr::{Oexp, Term, views, lemma_views_index, lemma_views_len};
use crate::number::Decimal;

verus! {

pub open spec fn digit_char(n: nat) -> char {
    if n == 0 {
        '0'
    } else if n == 1 {
        '1'
    } else if n == 2 {
        '2'
    } else if n == 3 {
        '3'
    } else if n == 4 {
        '4'
    } else if n == 5 {
        '5'
    } else if n == 6 {
        '6'
    } else if n == 7 {
        '7'
    } else if n == 8 {
        '8'
    } else {
        '9'
    }
}

/// The decimal digits of `n`, most significant first, without leading zeros.
pub open spec fn nat_text(n: nat) -> Seq<char>
    decreases n,
{
    if n < 10 {
        seq![digit_char(n)]
    } else {
        nat_text(n / 10).push(digit_char(n % 10))
    }
}

/// `mag / 10^scale` with the fraction's trailing zeros dropped.
pub open spec fn trim(mag: nat, scale: nat) -> (nat, nat)
    decreases scale,
{
    if scale > 0 && mag % 10 == 0 {
        trim(mag / 10, (scale - 1) as nat)
    } else {
        (mag, scale)
    }
}

/// Digits with a decimal point put `scale` places from their end.
pub open spec fn place_point(digits: Seq<char>, scale: nat) -> Seq<char> {
    if scale == 0 {
        digits
    } else if digits.len() > scale {
        digits.take(digits.len() - scale) + seq!['.'] + digits.skip(digits.len() - scale)
    } else {
        seq!['0', '.'] + Seq::new((scale - digits.len()) as nat, |i: int| '0') + digits
    }
}

pub open spec fn abs(m: int) -> nat {
    if m < 0 {
        (-m) as nat
    } else {
        m as nat
    }
}

/// A number in plain decimal form: no exponent, no trailing zeros after the
/// point, and no point for a whole number.
pub open spec fn decimal_text(d: Decimal) -> Seq<char> {
    let (mag, scale) = trim(abs(d.mantissa as int), d.scale as nat);
    (if d.mantissa < 0 {
        seq!['-']
    } else {
        Seq::empty()
    }) + place_point(nat_text(mag), scale)
}

/// How an expression is shown: lists as `(a , b , c)`, functions as a fixed
/// placeholder.
pub open spec fn text_of(t: Term) -> Seq<char>
    decreases t, 1int,
{
    match t {
        Term::Boolean(b) => if b {
            "true"@
        } else {
            "false"@
        },
        Term::Symbol(s) => s,
        Term::Number(d) => decimal_text(d),
        Term::List(items) => "("@ + joined(items) + ")"@,
        Term::Function(_) => "Function: {}"@,
        Term::FunctionDef(_, _) => "Function Definition: {}"@,
    }
}

/// The texts of `items`, separated by ` , `.
pub open spec fn joined(items: Seq<Term>) -> Seq<char>
    decreases items, 0int,
{
    if items.len() == 0 {
        Seq::empty()
    } else if items.len() == 1 {
        text_of(items[0])
    } else {
        joined(items.drop_last()) + " , "@ + text_of(items.last())
    }
}

fn digit_str(n: u64) -> (r: &'static str)
    requires
        n < 10,
    ensures
        r@ == seq![digit_char(n as nat)],
{
    proof {
        reveal_strlit("0");
        reveal_strlit("1");
        reveal_strlit("2");
        reveal_strlit("3");
        reveal_strlit("4");
        reveal_strlit("5");
        reveal_strlit("6");
        reveal_strlit("7");
        reveal_strlit("8");
        reveal_strlit("9");
    }
    if n == 0 {
        "0"
    } else if n == 1 {
        "1"
    } else if n == 2 {
        "2"
    } else if n == 3 {
        "3"
    } else if n == 4 {
        "4"
    } else if n == 5 {
        "5"
    } else if n == 6 {
        "6"
    } else if n == 7 {
        "7"
    } else if n == 8 {
        "8"
    } else {
        "9"
    }
}

fn write_nat(n: u64, out: &mut String)
    ensures
        final(out)@ == old(out)@ + nat_text(n as nat),
    decreases n,
{
    if n >= 10 {
        write_nat(n / 10, out);
    }
    out.append(digit_str(n % 10));
    proof {
        if n >= 10 {
            assert(nat_text(n as nat) == nat_text((n / 10) as nat).push(digit_char((n % 10) as nat)));
        }
    }
}

/// The text of a number, as `decimal_text` gives it.
pub fn decimal_to_text(d: &Decimal) -> (r: String)
    ensures
        r@ == decimal_text(*d),
{
    let mut mag: u64 = if d.mantissa < 0 {
        (-(d.mantissa as i128)) as u64
    } else {
        d.mantissa as u64
    };
    let mut scale: u32 = d.scale;
    while scale > 0 && mag % 10 == 0
        invariant
            trim(mag as nat, scale as nat) == trim(abs(d.mantissa as int), d.scale as nat),
        decreases scale,
    {
        mag = mag / 10;
        scale = scale - 1;
    }
    let mut digits = String::new();
    write_nat(mag, &mut digits);
    let mut out = String::new();
    if d.mantissa < 0 {
        out.append("-");
    }
    let ghost sign = out@;
    proof {
        reveal_strlit("-");
        assert(sign =~= (if d.mantissa < 0 {
            seq!['-']
        } else {
            Seq::<char>::empty()
        }));
    }
    let ds = digits.as_str();
    let n = ds.unicode_len();
    let s = scale as usize;
    if s == 0 {
        out.append(ds);
    } else if n > s {
        out.append(ds.substring_char(0, n - s));
        out.append(".");
        out.append(ds.substring_char(n - s, n));
        proof {
            reveal_strlit(".");
        }
    } else {
        out.append("0.");
        proof {
            reveal_strlit("0.");
            assert(out@ =~= sign + seq!['0', '.'] + Seq::new(0, |i: int| '0'));
        }
        let mut k: usize = 0;
        while k < s - n
            invariant
                k <= s - n,
                out@ == sign + seq!['0', '.'] + Seq::new(k as nat, |i: int| '0'),
            decreases s - n - k,
        {
            out.append("0");
            proof {
                reveal_strlit("0");
                assert(out@ =~= sign + seq!['0', '.'] + Seq::new((k + 1) as nat, |i: int| '0'));
            }
            k = k + 1;
        }
        out.append(ds);
    }
    out
}

impl Oexp {
    /// How this expression is shown (see `text_of`).
    pub fn to_text(&self) -> (r: String)
        ensures
            r@ == text_of(self@),
    {
        let mut out = String::new();
        self.write_text(&mut out);
        out
    }

    fn write_text(&self, out: &mut String)
        ensures
            final(out)@ == old(out)@ + text_of(self@),
        decreases self,
    {
        match self {
            Oexp::Boolean(b) => {
                if *b {
                    out.append("true");
                } else {
                    out.append("false");
                }
            },
            Oexp::Symbol(s) => out.append(s.as_str()),
            Oexp::Number(d) => {
                let t = decimal_to_text(d);
                out.append(t.as_str());
            },
            Oexp::List(v) => {
                let ghost start = out@;
                let ghost items = views(v@);
                proof {
                    lemma_views_len(v@);
                }
                out.append("(");
                let mut i: usize = 0;
                while i < v.len()
                    invariant
                        *self == Oexp::List(*v),
                        items == views(v@),
                        items.len() == v.len(),
                        i <= v.len(),
                        out@ == start + "("@ + joined(items.take(i as int)),
                    decreases v.len() - i,
                {
                    proof {
                        lemma_views_index(v@, i as int);
                        assert(decreases_to!(*self => (*self)->List_0));
                        assert(decreases_to!(*v => v@));
                        assert(decreases_to!(v@ => v@[i as int]));
                        assert(items.take(i + 1).drop_last() =~= items.take(i as int));
                    }
                    if i > 0 {
                        out.append(" , ");
                    }
                    v[i].write_text(out);
                    proof {
                        if i == 0 {
                            assert(joined(items.take(0)) =~= Seq::<char>::empty());
                        }
                    }
                    i = i + 1;
                }
                assert(items.take(v.len() as int) =~= items);
                out.append(")");
            },
            Oexp::Function(_) => out.append("Function: {}"),
            Oexp::FunctionDef(_) => out.append("Function Definition: {}"),
        }
    }
}

} // verus!
