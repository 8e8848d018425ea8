//! The token model: an opaque atomic unit of source text.
//!
//! A token is an identifier, a punctuation mark with a spacing hint, a
//! literal, or a delimited group owning an ordered sequence of tokens.
//! Tokens are immutable once produced: the transformer only copies,
//! reorders, or wraps them.

use vstd::prelude::*;

verus! {

/// The delimiter kind of a group token.
#[derive(Clone, Copy, PartialEq, Eq, Structural, Debug)]
pub enum Delimiter {
    Parenthesis,
    Bracket,
    Brace,
    Invisible,
}

/// One token of the source text. A group owns its inner tokens.
#[derive(PartialEq, Eq, Debug)]
pub enum Token {
    /// An identifier, e.g. a keyword or a name.
    Ident(String),
    /// A punctuation mark; the flag records whether it is joined to the
    /// next punctuation mark (spacing hint).
    Punct(char, bool),
    /// A literal, carried as its source text.
    Literal(String),
    /// A delimited group of tokens.
    Group(Delimiter, Vec<Token>),
}

/// The mathematical value of a token.
#[verifier::ext_equal]
pub ghost enum TokenV {
    Ident(Seq<char>),
    Punct(char, bool),
    Literal(Seq<char>),
    Group(Delimiter, Seq<TokenV>),
}

/// The value of a token: identifiers and literals by their text, a group
/// by the values of the tokens it owns.
pub open spec fn token_view(t: Token) -> TokenV
    decreases t,
{
    match t {
        Token::Ident(s) => TokenV::Ident(s@),
        Token::Punct(c, joint) => TokenV::Punct(c, joint),
        Token::Literal(s) => TokenV::Literal(s@),
        Token::Group(d, ts) => TokenV::Group(d, tokens_view(ts@)),
    }
}

/// The values of a run of tokens, in order.
pub open spec fn tokens_view(ts: Seq<Token>) -> Seq<TokenV>
    decreases ts,
{
    if ts.len() == 0 {
        Seq::empty()
    } else {
        seq![token_view(ts[0])] + tokens_view(ts.subrange(1, ts.len() as int))
    }
}

/// `tokens_view` maps the run pointwise and keeps its length.
pub broadcast proof fn lemma_tokens_view(ts: Seq<Token>)
    ensures
        (#[trigger] tokens_view(ts)).len() == ts.len(),
        forall|i: int| 0 <= i < ts.len() ==> tokens_view(ts)[i] == token_view(ts[i]),
    decreases ts.len(),
{
    if ts.len() > 0 {
        let tail = ts.subrange(1, ts.len() as int);
        lemma_tokens_view(tail);
        assert forall|i: int| 0 <= i < ts.len() implies tokens_view(ts)[i] == token_view(ts[i]) by {
            if i > 0 {
                assert(tail[i - 1] == ts[i]);
            }
        }
    }
}

/// True of an identifier token whose text is exactly `kw`.
pub open spec fn is_ident_named(t: TokenV, kw: Seq<char>) -> bool {
    t matches TokenV::Ident(s) && s == kw
}

/// True of a punctuation token with character `c`, whatever its spacing.
pub open spec fn is_punct_ch(t: TokenV, c: char) -> bool {
    t matches TokenV::Punct(cc, _) && cc == c
}

/// Whether identifier text `s` is exactly the keyword `kw`.
pub fn ident_is(s: &String, kw: &str) -> (r: bool)
    ensures
        r == (s@ == kw@),
{
    let k: String = kw.to_owned();
    s.eq(&k)
}

/// Whether `t` is an identifier token spelling exactly `kw`.
pub fn is_kw(t: &Token, kw: &str) -> (r: bool)
    ensures
        r == is_ident_named(t@, kw@),
{
    match t {
        Token::Ident(s) => ident_is(s, kw),
        _ => false,
    }
}

/// Whether `t` is a punctuation token with character `c`.
pub fn is_punct(t: &Token, c: char) -> (r: bool)
    ensures
        r == is_punct_ch(t@, c),
{
    match t {
        Token::Punct(cc, _) => *cc == c,
        _ => false,
    }
}

/// Whether `t` is a delimited group.
pub fn is_group(t: &Token) -> (r: bool)
    ensures
        r == (t@ is Group),
{
    match t {
        Token::Group(_, _) => true,
        _ => false,
    }
}

impl View for Token {
    type V = TokenV;

    open spec fn view(&self) -> TokenV {
        token_view(*self)
    }
}

/// How many punctuation tokens with character `c` the run holds.
pub open spec fn count_punct(ts: Seq<TokenV>, c: char) -> nat
    decreases ts.len(),
{
    if ts.len() == 0 {
        0
    } else {
        (if is_punct_ch(ts[0], c) {
            1nat
        } else {
            0nat
        }) + count_punct(ts.subrange(1, ts.len() as int), c)
    }
}

/// A deep copy of a token run.
pub fn clone_tokens(ts: &Vec<Token>) -> (r: Vec<Token>)
    ensures
        tokens_view(r@) == tokens_view(ts@),
{
    let mut r: Vec<Token> = Vec::new();
    let mut i: usize = 0;
    #[verifier::loop_isolation(false)]
    while i < ts.len()
        invariant
            i <= ts.len(),
            r.len() == i,
            forall|j: int| 0 <= j < i ==> token_view(r[j]) == token_view(ts[j]),
        decreases ts.len() - i,
    {
        r.push(ts[i].clone());
        i = i + 1;
    }
    proof {
        lemma_tokens_view(r@);
        lemma_tokens_view(ts@);
        assert(tokens_view(r@) =~= tokens_view(ts@));
    }
    r
}

/// Appends a deep copy of the run `ts` to `out`.
pub fn append_tokens(out: &mut Vec<Token>, ts: &Vec<Token>)
    ensures
        tokens_view(final(out)@) == tokens_view(old(out)@) + tokens_view(ts@),
{
    let ghost base = old(out)@;
    let mut i: usize = 0;
    #[verifier::loop_isolation(false)]
    while i < ts.len()
        invariant
            i <= ts.len(),
            out.len() == base.len() + i,
            forall|j: int| 0 <= j < base.len() ==> out[j] == base[j],
            forall|j: int| 0 <= j < i ==> token_view(out[base.len() + j]) == token_view(ts[j]),
        decreases ts.len() - i,
    {
        out.push(ts[i].clone());
        i = i + 1;
    }
    proof {
        lemma_tokens_view(out@);
        lemma_tokens_view(base);
        lemma_tokens_view(ts@);
        assert(tokens_view(out@) =~= tokens_view(base) + tokens_view(ts@));
    }
}

impl Clone for Token {
    /// A deep copy; the copy has the same value as the original.
    fn clone(&self) -> (r: Token)
        ensures
            r@ == self@,
        decreases self,
    {
        match self {
            Token::Ident(s) => Token::Ident(s.clone()),
            Token::Punct(c, joint) => Token::Punct(*c, *joint),
            Token::Literal(s) => Token::Literal(s.clone()),
            Token::Group(d, ts) => {
                let mut inner: Vec<Token> = Vec::new();
                let mut i: usize = 0;
                #[verifier::loop_isolation(false)]
                while i < ts.len()
                    invariant
                        i <= ts.len(),
                        inner.len() == i,
                        forall|j: int| 0 <= j < i ==> token_view(inner[j]) == token_view(ts[j]),
                    decreases ts.len() - i,
                {
                    proof {
                        assert(decreases_to!(ts => ts@));
                        assert(decreases_to!(ts@ => ts@[i as int]));
                    }
                    inner.push(ts[i].clone());
                    i = i + 1;
                }
                proof {
                    lemma_tokens_view(inner@);
                    lemma_tokens_view(ts@);
                    assert(tokens_view(inner@) =~= tokens_view(ts@));
                }
                Token::Group(*d, inner)
            }
        }
    }
}

} // verus!
