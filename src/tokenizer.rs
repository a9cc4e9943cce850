use vstd::prelude::*;

verus! {

/// Unicode's White_Space characters.
pub open spec fn is_space(c: char) -> bool {
    ('\u{9}' <= c && c <= '\u{d}') || c == ' ' || c == '\u{85}' || c == '\u{a0}' || c
        == '\u{1680}' || ('\u{2000}' <= c && c <= '\u{200a}') || c == '\u{2028}' || c
        == '\u{2029}' || c == '\u{202f}' || c == '\u{205f}' || c == '\u{3000}'
}

pub open spec fn is_paren(c: char) -> bool {
    c == '(' || c == ')'
}

pub open spec fn is_delimiter(c: char) -> bool {
    is_space(c) || is_paren(c)
}

/// The length of the word that `s` starts with: its leading run of characters
/// that are neither white space nor parentheses.
pub open spec fn word_len(s: Seq<char>) -> nat
    decreases s.len(),
{
    if s.len() == 0 || is_delimiter(s[0]) {
        0
    } else {
        1 + word_len(s.drop_first())
    }
}

/// The tokens of `s`, in order: each parenthesis on its own, and each maximal
/// run of other characters that holds no white space; white space only
/// separates.
pub open spec fn tokens_of(s: Seq<char>) -> Seq<Seq<char>>
    decreases s.len(),
    via tokens_of_decreases
{
    if s.len() == 0 {
        Seq::empty()
    } else if is_space(s[0]) {
        tokens_of(s.drop_first())
    } else if is_paren(s[0]) {
        seq![seq![s[0]]] + tokens_of(s.drop_first())
    } else {
        let n = word_len(s);
        seq![s.take(n as int)] + tokens_of(s.skip(n as int))
    }
}

proof fn lemma_word_len_bound(s: Seq<char>)
    ensures
        word_len(s) <= s.len(),
    decreases s.len(),
{
    if s.len() > 0 {
        lemma_word_len_bound(s.drop_first());
    }
}

#[via_fn]
proof fn tokens_of_decreases(s: Seq<char>) {
    lemma_word_len_bound(s);
}

/// The characters of each string.
pub open spec fn texts(v: Seq<String>) -> Seq<Seq<char>> {
    v.map_values(|t: String| t@)
}

/// Whether `c` is Unicode white space.
pub fn is_space_char(c: char) -> (r: bool)
    ensures
        r == is_space(c),
{
    ('\u{9}' <= c && c <= '\u{d}') || c == ' ' || c == '\u{85}' || c == '\u{a0}' || c
        == '\u{1680}' || ('\u{2000}' <= c && c <= '\u{200a}') || c == '\u{2028}' || c
        == '\u{2029}' || c == '\u{202f}' || c == '\u{205f}' || c == '\u{3000}'
}

fn is_delimiter_char(c: char) -> (r: bool)
    ensures
        r == is_delimiter(c),
{
    c == '(' || c == ')' || is_space_char(c)
}

proof fn lemma_word_len(s: Seq<char>, i: int, j: int)
    requires
        0 <= i <= j <= s.len(),
        forall|k: int| i <= k < j ==> !is_delimiter(#[trigger] s[k]),
        j == s.len() || is_delimiter(s[j]),
    ensures
        word_len(s.skip(i)) == j - i,
    decreases j - i,
{
    if i < j {
        assert(s.skip(i).drop_first() =~= s.skip(i + 1));
        lemma_word_len(s, i + 1, j);
    }
}

/// Splits a line into tokens: parentheses stand alone, and white space
/// separates the rest.
pub fn tokenise(input: String) -> (r: Vec<String>)
    ensures
        texts(r@) == tokens_of(input@),
{
    let s = input.as_str();
    let n = s.unicode_len();
    let mut out: Vec<String> = Vec::new();
    let mut i: usize = 0;
    assert(s@.skip(0) =~= s@);
    assert(texts(out@) =~= Seq::<Seq<char>>::empty());
    while i < n
        invariant
            n == s@.len(),
            s@ == input@,
            i <= n,
            texts(out@) + tokens_of(s@.skip(i as int)) == tokens_of(s@),
        decreases n - i,
    {
        let c = s.get_char(i);
        let ghost rest = s@.skip(i as int);
        let ghost before = texts(out@);
        assert(rest.drop_first() =~= s@.skip(i + 1));
        if is_space_char(c) {
            i = i + 1;
        } else if c == '(' || c == ')' {
            let t = String::from_str(s.substring_char(i, i + 1));
            out.push(t);
            assert(t@ =~= seq![c]);
            assert(texts(out@) =~= before.push(seq![c]));
            assert(texts(out@) + tokens_of(s@.skip(i + 1)) =~= before + tokens_of(rest));
            i = i + 1;
        } else {
            let mut j: usize = i + 1;
            while j < n && !is_delimiter_char(s.get_char(j))
                invariant
                    n == s@.len(),
                    i < j <= n,
                    forall|k: int| i <= k < j ==> !is_delimiter(#[trigger] s@[k]),
                decreases n - j,
            {
                j = j + 1;
            }
            proof {
                lemma_word_len(s@, i as int, j as int);
            }
            let t = String::from_str(s.substring_char(i, j));
            out.push(t);
            assert(t@ =~= rest.take(j - i));
            assert(rest.skip(j - i) =~= s@.skip(j as int));
            assert(texts(out@) =~= before.push(rest.take(j - i)));
            assert(texts(out@) + tokens_of(s@.skip(j as int)) =~= before + tokens_of(rest));
            i = j;
        }
    }
    assert(s@.skip(n as int) =~= Seq::<char>::empty());
    assert(texts(out@) + Seq::<Seq<char>>::empty() =~= texts(out@));
    out
}

/// Tokens joined with single spaces between them.
pub open spec fn spaced_join(ts: Seq<Seq<char>>) -> Seq<char>
    decreases ts.len(),
{
    if ts.len() == 0 {
        Seq::empty()
    } else if ts.len() == 1 {
        ts[0]
    } else {
        ts[0] + seq![' '] + spaced_join(ts.drop_first())
    }
}

/// A single parenthesis, or a non-empty run of characters that are neither
/// white space nor parentheses.
pub open spec fn is_token(w: Seq<char>) -> bool {
    (w.len() == 1 && is_paren(w[0])) || (w.len() > 0 && forall|j: int|
        0 <= j < w.len() ==> !is_delimiter(#[trigger] w[j]))
}

proof fn lemma_word_chars(s: Seq<char>)
    ensures
        forall|k: int| 0 <= k < word_len(s) ==> !is_delimiter(#[trigger] s[k]),
    decreases s.len(),
{
    if s.len() > 0 && !is_delimiter(s[0]) {
        lemma_word_chars(s.drop_first());
        lemma_word_len_bound(s);
        assert forall|k: int| 0 <= k < word_len(s) implies !is_delimiter(#[trigger] s[k]) by {
            if k > 0 {
                assert(s[k] == s.drop_first()[k - 1]);
            }
        }
    }
}

proof fn lemma_tokens_are_tokens(s: Seq<char>)
    ensures
        forall|i: int| 0 <= i < tokens_of(s).len() ==> is_token(#[trigger] tokens_of(s)[i]),
    decreases s.len(),
{
    if s.len() > 0 {
        if is_space(s[0]) {
            lemma_tokens_are_tokens(s.drop_first());
        } else if is_paren(s[0]) {
            lemma_tokens_are_tokens(s.drop_first());
            let ts = tokens_of(s);
            assert forall|i: int| 0 <= i < ts.len() implies is_token(#[trigger] ts[i]) by {
                if i > 0 {
                    assert(ts[i] == tokens_of(s.drop_first())[i - 1]);
                }
            }
        } else {
            lemma_word_len_bound(s);
            let n = word_len(s);
            lemma_word_chars(s);
            lemma_tokens_are_tokens(s.skip(n as int));
            let ts = tokens_of(s);
            assert forall|i: int| 0 <= i < ts.len() implies is_token(#[trigger] ts[i]) by {
                if i > 0 {
                    assert(ts[i] == tokens_of(s.skip(n as int))[i - 1]);
                } else {
                    assert(ts[0] == s.take(n as int));
                    assert(s[0] == ts[0][0]);
                }
            }
        }
    }
}

proof fn lemma_leading_token(w: Seq<char>, r: Seq<char>)
    requires
        is_token(w),
        r.len() == 0 || is_space(r[0]),
    ensures
        tokens_of(w + r) == seq![w] + tokens_of(r),
{
    let s = w + r;
    assert(s[0] == w[0]);
    if w.len() == 1 && is_paren(w[0]) {
        assert(s.drop_first() =~= r);
        assert(seq![s[0]] =~= w);
    } else {
        assert forall|k: int| 0 <= k < w.len() implies !is_delimiter(#[trigger] s[k]) by {
            assert(s[k] == w[k]);
        }
        if r.len() > 0 {
            assert(s[w.len() as int] == r[0]);
        }
        lemma_word_len(s, 0, w.len() as int);
        assert(s.skip(0) =~= s);
        assert(s.take(w.len() as int) =~= w);
        assert(s.skip(w.len() as int) =~= r);
    }
}

proof fn lemma_retokenise(ts: Seq<Seq<char>>)
    requires
        forall|i: int| 0 <= i < ts.len() ==> is_token(#[trigger] ts[i]),
    ensures
        tokens_of(spaced_join(ts)) == ts,
    decreases ts.len(),
{
    if ts.len() == 1 {
        assert(is_token(ts[0]));
        lemma_leading_token(ts[0], Seq::empty());
        assert(ts[0] + Seq::<char>::empty() =~= ts[0]);
        assert(seq![ts[0]] + Seq::<Seq<char>>::empty() =~= ts);
    } else if ts.len() > 1 {
        let rest = ts.drop_first();
        assert forall|i: int| 0 <= i < rest.len() implies is_token(#[trigger] rest[i]) by {
            assert(rest[i] == ts[i + 1]);
        }
        lemma_retokenise(rest);
        let r = seq![' '] + spaced_join(rest);
        assert(is_token(ts[0]));
        lemma_leading_token(ts[0], r);
        assert(r.drop_first() =~= spaced_join(rest));
        assert(ts[0] + seq![' '] + spaced_join(rest) =~= ts[0] + r);
        assert(seq![ts[0]] + rest =~= ts);
    }
}

/// Joining the tokens of a line with single spaces and splitting the result
/// again gives the same tokens.
pub proof fn law_retokenise(s: Seq<char>)
    ensures
        tokens_of(spaced_join(tokens_of(s))) == tokens_of(s),
{
    lemma_tokens_are_tokens(s);
    lemma_retokenise(tokens_of(s));
}

} // verus!
