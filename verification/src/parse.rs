//! The declaration parser: scans the raw token sequence of the annotated
//! item, skipping any leading annotations and capturing them verbatim,
//! capturing a visibility prefix if present, then consuming the record
//! keyword, the name token, an optional generic-parameter token run, and
//! finally the single delimited group holding the member list.

use vstd::prelude::*;

use crate::token::{
    count_punct, is_group, is_ident_named, is_kw, is_punct, is_punct_ch, token_view, tokens_view,
    Token, TokenV,
};

verus! {

broadcast use crate::token::lemma_tokens_view;

/// The token sequence does not contain, after optional prefixes, a record
/// keyword, a name, and a trailing delimited group.
#[derive(Clone, Copy, PartialEq, Eq, Structural, Debug)]
pub struct MalformedDeclaration;

/// The parsed declaration: every piece captured verbatim.
pub struct StructDef {
    /// Leading annotations, each a marker token with an optional
    /// argument group.
    pub attributes: Vec<Vec<Token>>,
    /// The visibility prefix: nothing, a visibility keyword, or the
    /// keyword with a following qualifier group.
    pub visibility: Vec<Token>,
    /// The record keyword token.
    pub struct_token: Token,
    /// The name token.
    pub name: Token,
    /// The generic-parameter run, including its angle markers, if present.
    pub generics: Option<Vec<Token>>,
    /// The delimited group holding the member list.
    pub fields_group: Token,
}

/// The mathematical value of a parsed declaration.
#[verifier::ext_equal]
pub ghost struct StructDefV {
    pub attributes: Seq<Seq<TokenV>>,
    pub visibility: Seq<TokenV>,
    pub struct_token: TokenV,
    pub name: TokenV,
    pub generics: Option<Seq<TokenV>>,
    pub fields_group: TokenV,
}

/// The values of a sequence of token runs, run by run.
pub open spec fn token_runs_view(rs: Seq<Vec<Token>>) -> Seq<Seq<TokenV>> {
    Seq::new(rs.len(), |i: int| tokens_view(rs[i]@))
}

impl View for StructDef {
    type V = StructDefV;

    open spec fn view(&self) -> StructDefV {
        StructDefV {
            attributes: token_runs_view(self.attributes@),
            visibility: tokens_view(self.visibility@),
            struct_token: token_view(self.struct_token),
            name: token_view(self.name),
            generics: match self.generics {
                Option::Some(g) => Option::Some(tokens_view(g@)),
                Option::None => Option::None,
            },
            fields_group: token_view(self.fields_group),
        }
    }
}

/// How many tokens a marker at the head takes: the marker itself and, if
/// one follows, its delimited group.
pub open spec fn marker_take(ts: Seq<TokenV>) -> int {
    if ts.len() >= 2 && ts[1] is Group {
        2
    } else {
        1
    }
}

/// The generic-parameter run: consumes from `ts` with explicit depth
/// tracking, incrementing on each angle-open and decrementing on each
/// angle-close, stopping immediately after the angle-close that returns
/// the depth to zero. Every other token is copied through untouched.
/// `None` when the sequence is exhausted first.
pub open spec fn take_generics(ts: Seq<TokenV>, depth: nat) -> Option<(Seq<TokenV>, Seq<TokenV>)>
    decreases ts.len(),
{
    if ts.len() == 0 {
        None
    } else {
        let t = ts[0];
        let rest = ts.subrange(1, ts.len() as int);
        if is_punct_ch(t, '<') {
            match take_generics(rest, depth + 1) {
                Some(p) => Some((seq![t] + p.0, p.1)),
                None => None,
            }
        } else if is_punct_ch(t, '>') {
            if depth <= 1 {
                Some((seq![t], rest))
            } else {
                match take_generics(rest, (depth - 1) as nat) {
                    Some(p) => Some((seq![t] + p.0, p.1)),
                    None => None,
                }
            }
        } else {
            match take_generics(rest, depth) {
                Some(p) => Some((seq![t] + p.0, p.1)),
                None => None,
            }
        }
    }
}

/// After the prefix phase: the keyword and name tokens are consumed
/// unconditionally, then an optional generic run, then exactly one token
/// that must be a delimited group.
pub open spec fn parse_body(ts: Seq<TokenV>, vis: Seq<TokenV>) -> Option<StructDefV> {
    if ts.len() < 2 {
        None
    } else {
        let rest = ts.subrange(2, ts.len() as int);
        if rest.len() > 0 && is_punct_ch(rest[0], '<') {
            match take_generics(rest, 0) {
                Some(p) => finish_body(ts[0], ts[1], Some(p.0), p.1, vis),
                None => None,
            }
        } else {
            finish_body(ts[0], ts[1], None, rest, vis)
        }
    }
}

/// The last step of parsing: the member group must follow.
pub open spec fn finish_body(
    keyword: TokenV,
    name: TokenV,
    generics: Option<Seq<TokenV>>,
    rest: Seq<TokenV>,
    vis: Seq<TokenV>,
) -> Option<StructDefV> {
    if rest.len() > 0 && rest[0] is Group {
        Some(
            StructDefV {
                attributes: Seq::empty(),
                visibility: vis,
                struct_token: keyword,
                name: name,
                generics: generics,
                fields_group: rest[0],
            },
        )
    } else {
        None
    }
}

/// The whole parse: scan left to right with one token of lookahead.
/// A marker token opens an annotation, captured verbatim; a visibility
/// keyword (with a following qualifier group, if any) ends the prefix
/// scan; the record keyword ends it too; any other token is discarded
/// silently. Then the body is parsed.
pub open spec fn parse_struct_spec(ts: Seq<TokenV>) -> Option<StructDefV>
    decreases ts.len(),
{
    if ts.len() == 0 {
        None
    } else if is_punct_ch(ts[0], '#') {
        let n = marker_take(ts);
        match parse_struct_spec(ts.subrange(n, ts.len() as int)) {
            Some(d) => Some(StructDefV { attributes: seq![ts.subrange(0, n)] + d.attributes, ..d }),
            None => None,
        }
    } else if is_ident_named(ts[0], "pub"@) {
        let n = marker_take(ts);
        parse_body(ts.subrange(n, ts.len() as int), ts.subrange(0, n))
    } else if is_ident_named(ts[0], "struct"@) {
        parse_body(ts, Seq::empty())
    } else {
        parse_struct_spec(ts.subrange(1, ts.len() as int))
    }
}

/// Splitting off the head of a run splits its count.
proof fn lemma_count_punct_cons(t: TokenV, rest: Seq<TokenV>, c: char)
    ensures
        count_punct(seq![t] + rest, c) == (if is_punct_ch(t, c) {
            1nat
        } else {
            0nat
        }) + count_punct(rest, c),
{
    let s = seq![t] + rest;
    assert(s.subrange(1, s.len() as int) =~= rest);
}

/// A captured generic run restores the depth it was entered with: it
/// carries exactly `depth` more angle-closes than angle-opens.
proof fn lemma_take_generics_balance(ts: Seq<TokenV>, depth: nat)
    requires
        take_generics(ts, depth) is Some,
        depth > 0 || (ts.len() > 0 && is_punct_ch(ts[0], '<')),
    ensures
        count_punct(take_generics(ts, depth)->Some_0.0, '>') == depth + count_punct(
            take_generics(ts, depth)->Some_0.0,
            '<',
        ),
    decreases ts.len(),
{
    let t = ts[0];
    let rest = ts.subrange(1, ts.len() as int);
    let run = take_generics(ts, depth)->Some_0.0;
    if is_punct_ch(t, '<') {
        let p = take_generics(rest, depth + 1)->Some_0;
        lemma_take_generics_balance(rest, depth + 1);
        lemma_count_punct_cons(t, p.0, '<');
        lemma_count_punct_cons(t, p.0, '>');
    } else if is_punct_ch(t, '>') {
        if depth <= 1 {
            assert(run == seq![t]);
            assert(run.subrange(1, run.len() as int) =~= Seq::<TokenV>::empty());
            assert(count_punct(run, '>') == 1 + count_punct(run.subrange(1, run.len() as int), '>'));
            assert(count_punct(run, '<') == 0 + count_punct(run.subrange(1, run.len() as int), '<'));
        } else {
            let p = take_generics(rest, (depth - 1) as nat)->Some_0;
            lemma_take_generics_balance(rest, (depth - 1) as nat);
            lemma_count_punct_cons(t, p.0, '<');
            lemma_count_punct_cons(t, p.0, '>');
        }
    } else {
        let p = take_generics(rest, depth)->Some_0;
        lemma_take_generics_balance(rest, depth);
        lemma_count_punct_cons(t, p.0, '<');
        lemma_count_punct_cons(t, p.0, '>');
    }
}

/// The invariant of a successful body parse: the member group is a
/// delimited group and the generic run, if present, is balanced.
proof fn lemma_body_invariant(ts: Seq<TokenV>, vis: Seq<TokenV>)
    requires
        parse_body(ts, vis) is Some,
    ensures
        parse_body(ts, vis)->Some_0.fields_group is Group,
        (parse_body(ts, vis)->Some_0.generics matches Some(g) ==> count_punct(g, '<')
            == count_punct(g, '>')),
{
    let rest = ts.subrange(2, ts.len() as int);
    if rest.len() > 0 && is_punct_ch(rest[0], '<') {
        lemma_take_generics_balance(rest, 0);
    }
}

/// `run` stands verbatim in `ts`, starting at `k`.
pub open spec fn run_at(ts: Seq<TokenV>, run: Seq<TokenV>, k: int) -> bool {
    0 <= k && k + run.len() <= ts.len() && run == ts.subrange(k, k + run.len() as int)
}

/// The core of a parsed declaration, in emission order: visibility
/// prefix, keyword, name, generic run, member group.
pub open spec fn core_run(d: StructDefV) -> Seq<TokenV> {
    d.visibility + seq![d.struct_token, d.name] + (match d.generics {
        Some(g) => g,
        None => Seq::empty(),
    }) + seq![d.fields_group]
}

/// What a captured generic run was cut from: the run followed by what is
/// left is the sequence it was taken from.
proof fn lemma_take_generics_concat(ts: Seq<TokenV>, depth: nat)
    requires
        take_generics(ts, depth) is Some,
    ensures
        take_generics(ts, depth)->Some_0.0 + take_generics(ts, depth)->Some_0.1 == ts,
    decreases ts.len(),
{
    let t = ts[0];
    let rest = ts.subrange(1, ts.len() as int);
    if is_punct_ch(t, '<') {
        let p = take_generics(rest, depth + 1)->Some_0;
        lemma_take_generics_concat(rest, depth + 1);
        assert((seq![t] + p.0) + p.1 =~= seq![t] + (p.0 + p.1));
        assert(seq![t] + rest =~= ts);
    } else if is_punct_ch(t, '>') {
        if depth <= 1 {
            assert(seq![t] + rest =~= ts);
        } else {
            let p = take_generics(rest, (depth - 1) as nat)->Some_0;
            lemma_take_generics_concat(rest, (depth - 1) as nat);
            assert((seq![t] + p.0) + p.1 =~= seq![t] + (p.0 + p.1));
            assert(seq![t] + rest =~= ts);
        }
    } else {
        let p = take_generics(rest, depth)->Some_0;
        lemma_take_generics_concat(rest, depth);
        assert((seq![t] + p.0) + p.1 =~= seq![t] + (p.0 + p.1));
        assert(seq![t] + rest =~= ts);
    }
}

/// A run found in a suffix of `ts` stands in `ts`, shifted.
proof fn lemma_run_at_shift(ts: Seq<TokenV>, run: Seq<TokenV>, n: int, k: int)
    requires
        0 <= n <= ts.len(),
        run_at(ts.subrange(n, ts.len() as int), run, k),
    ensures
        run_at(ts, run, n + k),
{
    assert(ts.subrange(n, ts.len() as int).subrange(k, k + run.len() as int) =~= ts.subrange(
        n + k,
        n + k + run.len() as int,
    ));
}

/// The core of a successful body parse stands verbatim at the start of
/// `vis + ts`.
proof fn lemma_body_verbatim(ts: Seq<TokenV>, vis: Seq<TokenV>)
    requires
        parse_body(ts, vis) is Some,
        vis.len() <= 2,
    ensures
        core_run(parse_body(ts, vis)->Some_0).len() <= vis.len() + ts.len(),
        core_run(parse_body(ts, vis)->Some_0) == (vis + ts).subrange(
            0,
            core_run(parse_body(ts, vis)->Some_0).len() as int,
        ),
{
    let d = parse_body(ts, vis)->Some_0;
    let rest = ts.subrange(2, ts.len() as int);
    if rest.len() > 0 && is_punct_ch(rest[0], '<') {
        let p = take_generics(rest, 0)->Some_0;
        lemma_take_generics_concat(rest, 0);
        assert(p.0 + p.1 == rest);
        assert forall|i: int| 0 <= i < p.0.len() implies p.0[i] == ts[2 + i] by {
            assert(p.0[i] == (p.0 + p.1)[i]);
        }
        assert(d.fields_group == p.1[0]);
        assert(p.1[0] == (p.0 + p.1)[p.0.len() as int]);
        assert(d.fields_group == ts[2 + p.0.len() as int]);
        assert(core_run(d) =~= (vis + ts).subrange(0, core_run(d).len() as int));
    } else {
        assert(core_run(d) =~= (vis + ts).subrange(0, core_run(d).len() as int));
    }
}

/// Verbatim capture from the input: on success, the declaration's core —
/// visibility prefix, keyword, name, generic run and member group —
/// stands contiguously and unmodified in the input.
pub proof fn lemma_parse_verbatim(ts: Seq<TokenV>)
    requires
        parse_struct_spec(ts) is Some,
    ensures
        exists|k: int| run_at(ts, core_run(parse_struct_spec(ts)->Some_0), k),
    decreases ts.len(),
{
    let d = parse_struct_spec(ts)->Some_0;
    let n = marker_take(ts);
    let tail = ts.subrange(n, ts.len() as int);
    if is_punct_ch(ts[0], '#') {
        lemma_parse_verbatim(tail);
        let dd = parse_struct_spec(tail)->Some_0;
        assert(core_run(d) == core_run(dd));
        let k = choose|k: int| #[trigger] run_at(tail, core_run(dd), k);
        lemma_run_at_shift(ts, core_run(dd), n, k);
        assert(run_at(ts, core_run(d), n + k));
    } else if is_ident_named(ts[0], "pub"@) {
        let vis = ts.subrange(0, n);
        lemma_body_verbatim(tail, vis);
        assert(vis + tail =~= ts);
        assert(run_at(ts, core_run(d), 0));
    } else if is_ident_named(ts[0], "struct"@) {
        lemma_body_verbatim(ts, Seq::empty());
        assert(Seq::<TokenV>::empty() + ts =~= ts);
        assert(run_at(ts, core_run(d), 0));
    } else {
        let tail1 = ts.subrange(1, ts.len() as int);
        lemma_parse_verbatim(tail1);
        let dd = parse_struct_spec(tail1)->Some_0;
        let k = choose|k: int| #[trigger] run_at(tail1, core_run(dd), k);
        lemma_run_at_shift(ts, core_run(dd), 1, k);
        assert(run_at(ts, core_run(d), 1 + k));
    }
}

/// Verbatim capture of the leading annotations: each captured
/// annotation run stands unmodified in the input.
pub proof fn lemma_parse_attr_verbatim(ts: Seq<TokenV>, i: int)
    requires
        parse_struct_spec(ts) is Some,
        0 <= i < parse_struct_spec(ts)->Some_0.attributes.len(),
    ensures
        exists|k: int| run_at(ts, parse_struct_spec(ts)->Some_0.attributes[i], k),
    decreases ts.len(),
{
    let d = parse_struct_spec(ts)->Some_0;
    let n = marker_take(ts);
    let tail = ts.subrange(n, ts.len() as int);
    if is_punct_ch(ts[0], '#') {
        let dd = parse_struct_spec(tail)->Some_0;
        if i == 0 {
            assert(d.attributes[0] == ts.subrange(0, n));
            assert(ts.subrange(0, n).len() == n);
            assert(ts.subrange(0, n) =~= ts.subrange(0, 0 + ts.subrange(0, n).len() as int));
            assert(run_at(ts, d.attributes[i], 0));
        } else {
            assert(d.attributes[i] == dd.attributes[i - 1]);
            lemma_parse_attr_verbatim(tail, i - 1);
            let k2 = choose|k2: int| #[trigger] run_at(tail, dd.attributes[i - 1], k2);
            lemma_run_at_shift(ts, dd.attributes[i - 1], n, k2);
            assert(run_at(ts, d.attributes[i], n + k2));
        }
    } else if is_ident_named(ts[0], "pub"@) {
        assert(d.attributes.len() == 0);
    } else if is_ident_named(ts[0], "struct"@) {
        assert(d.attributes.len() == 0);
    } else {
        let tail1 = ts.subrange(1, ts.len() as int);
        let dd = parse_struct_spec(tail1)->Some_0;
        assert(d.attributes[i] == dd.attributes[i]);
        lemma_parse_attr_verbatim(tail1, i);
        let k2 = choose|k2: int| #[trigger] run_at(tail1, dd.attributes[i], k2);
        lemma_run_at_shift(ts, dd.attributes[i], 1, k2);
        assert(run_at(ts, d.attributes[i], 1 + k2));
    }
}

/// The invariant of every successful parse (the structure the variant
/// generator relies on): the member group is always a single delimited
/// group, and the generic run, if present, holds as many angle-opens as
/// angle-closes at the point parsing stops.
pub proof fn lemma_parse_invariant(ts: Seq<TokenV>)
    requires
        parse_struct_spec(ts) is Some,
    ensures
        parse_struct_spec(ts)->Some_0.fields_group is Group,
        (parse_struct_spec(ts)->Some_0.generics matches Some(g) ==> count_punct(g, '<')
            == count_punct(g, '>')),
    decreases ts.len(),
{
    let n = marker_take(ts);
    if is_punct_ch(ts[0], '#') {
        lemma_parse_invariant(ts.subrange(n, ts.len() as int));
    } else if is_ident_named(ts[0], "pub"@) {
        lemma_body_invariant(ts.subrange(n, ts.len() as int), ts.subrange(0, n));
    } else if is_ident_named(ts[0], "struct"@) {
        lemma_body_invariant(ts, Seq::empty());
    } else {
        lemma_parse_invariant(ts.subrange(1, ts.len() as int));
    }
}

/// A cursor over the token sequence of the annotated item.
pub struct Parser {
    pub tokens: Vec<Token>,
    pub pos: usize,
}

impl Parser {
    /// The cursor has not run past the end.
    pub open spec fn wf(&self) -> bool {
        self.pos <= self.tokens@.len()
    }

    /// The tokens not yet consumed.
    pub open spec fn remaining(&self) -> Seq<TokenV> {
        tokens_view(self.tokens@).subrange(self.pos as int, self.tokens@.len() as int)
    }

    pub fn new(tokens: Vec<Token>) -> (p: Parser)
        ensures
            p.wf(),
            p.remaining() == tokens_view(tokens@),
    {
        let p = Parser { tokens, pos: 0 };
        proof {
            assert(p.remaining() =~= tokens_view(p.tokens@));
        }
        p
    }

    /// Whether every token has been consumed.
    pub fn done(&self) -> (r: bool)
        requires
            self.wf(),
        ensures
            r == (self.remaining().len() == 0),
    {
        self.pos == self.tokens.len()
    }

    /// A look at the next token without consuming it.
    pub fn peek(&self) -> (t: &Token)
        requires
            self.wf(),
            self.remaining().len() > 0,
        ensures
            t@ == self.remaining()[0],
    {
        &self.tokens[self.pos]
    }

    /// Consumes the next token and hands out a copy of it.
    pub fn next(&mut self) -> (t: Token)
        requires
            old(self).wf(),
            old(self).remaining().len() > 0,
        ensures
            final(self).wf(),
            final(self).tokens == old(self).tokens,
            t@ == old(self).remaining()[0],
            final(self).remaining() == old(self).remaining().subrange(
                1,
                old(self).remaining().len() as int,
            ),
    {
        let n: usize = self.tokens.len();
        proof {
            assert(tokens_view(self.tokens@).len() == self.tokens@.len());
        }
        let t = self.tokens[self.pos].clone();
        self.pos = self.pos + 1;
        proof {
            assert(self.remaining() =~= old(self).remaining().subrange(
                1,
                old(self).remaining().len() as int,
            ));
        }
        t
    }

    /// Skips the next token without capturing it.
    pub fn advance(&mut self)
        requires
            old(self).wf(),
            old(self).remaining().len() > 0,
        ensures
            final(self).wf(),
            final(self).tokens == old(self).tokens,
            final(self).remaining() == old(self).remaining().subrange(
                1,
                old(self).remaining().len() as int,
            ),
    {
        let n: usize = self.tokens.len();
        proof {
            assert(tokens_view(self.tokens@).len() == self.tokens@.len());
        }
        self.pos = self.pos + 1;
        proof {
            assert(self.remaining() =~= old(self).remaining().subrange(
                1,
                old(self).remaining().len() as int,
            ));
        }
    }

    /// Captures an annotation: the marker token and, if one follows, its
    /// argument group.
    pub fn parse_attribute(&mut self) -> (r: Vec<Token>)
        requires
            old(self).wf(),
            old(self).remaining().len() > 0,
        ensures
            final(self).wf(),
            final(self).tokens == old(self).tokens,
            tokens_view(r@) == old(self).remaining().subrange(
                0,
                marker_take(old(self).remaining()),
            ),
            final(self).remaining() == old(self).remaining().subrange(
                marker_take(old(self).remaining()),
                old(self).remaining().len() as int,
            ),
    {
        let ghost rem0 = old(self).remaining();
        let mut attr: Vec<Token> = Vec::new();
        let marker = self.next();
        attr.push(marker);
        if !self.done() && is_group(self.peek()) {
            let g = self.next();
            attr.push(g);
            proof {
                assert(marker_take(rem0) == 2);
                assert(tokens_view(attr@) =~= rem0.subrange(0, 2));
                assert(self.remaining() =~= rem0.subrange(2, rem0.len() as int));
            }
        } else {
            proof {
                assert(marker_take(rem0) == 1);
                assert(tokens_view(attr@) =~= rem0.subrange(0, 1));
            }
        }
        attr
    }

    /// Consumes the generic-parameter run with explicit depth tracking;
    /// the next token must be the angle-open marker. On a balanced run
    /// the captured tokens are exactly the run and the cursor stands
    /// right behind its closing marker; on an unbalanced run everything
    /// to the end is captured.
    pub fn parse_generics(&mut self) -> (r: Vec<Token>)
        requires
            old(self).wf(),
            old(self).remaining().len() > 0,
            is_punct_ch(old(self).remaining()[0], '<'),
        ensures
            final(self).wf(),
            final(self).tokens == old(self).tokens,
            match take_generics(old(self).remaining(), 0) {
                Some(p) => tokens_view(r@) == p.0 && final(self).remaining() == p.1,
                None => tokens_view(r@) == old(self).remaining() && final(self).remaining().len()
                    == 0,
            },
    {
        let ghost orig = old(self).remaining();
        let mut generics: Vec<Token> = Vec::new();
        let mut depth: usize = 0;
        let mut finished: bool = false;
        #[verifier::loop_isolation(false)]
        while !finished
            invariant
                self.wf(),
                self.tokens == old(self).tokens,
                depth as int <= generics@.len(),
                !finished ==> orig == tokens_view(generics@) + self.remaining(),
                !finished ==> (depth == 0 ==> self.remaining().len() > 0 && is_punct_ch(
                    self.remaining()[0],
                    '<',
                )),
                !finished ==> match take_generics(self.remaining(), depth as nat) {
                    Some(p) => take_generics(orig, 0) == Some(
                        (tokens_view(generics@) + p.0, p.1),
                    ),
                    None => take_generics(orig, 0) is None,
                },
                finished ==> match take_generics(orig, 0) {
                    Some(p) => tokens_view(generics@) == p.0 && self.remaining() == p.1,
                    None => tokens_view(generics@) == orig && self.remaining().len() == 0,
                },
            decreases (if finished { 0int } else { 1int }), self.remaining().len(),
        {
            if self.done() {
                proof {
                    assert(tokens_view(generics@) =~= orig);
                }
                finished = true;
                continue;
            }
            let ghost cur = self.remaining();
            let ghost depth0 = depth;
            let ghost g0 = generics@;
            let t = self.next();
            let is_open = is_punct(&t, '<');
            let is_close = is_punct(&t, '>');
            generics.push(t);
            let glen: usize = generics.len();
            proof {
                assert(cur.subrange(1, cur.len() as int) =~= self.remaining());
                assert(tokens_view(generics@) =~= tokens_view(g0) + seq![cur[0]]);
            }
            if is_open {
                depth = depth + 1;
                proof {
                    match take_generics(self.remaining(), depth as nat) {
                        Some(p) => {
                            assert(take_generics(cur, depth0 as nat) == Some(
                                (seq![cur[0]] + p.0, p.1),
                            ));
                            assert(tokens_view(generics@) + p.0 =~= tokens_view(g0) + (seq![
                                cur[0],
                            ] + p.0));
                        }
                        None => {}
                    }
                }
            } else if is_close {
                depth = depth - 1;
                if depth == 0 {
                    proof {
                        assert(take_generics(cur, 1) == Some(
                            (seq![cur[0]], cur.subrange(1, cur.len() as int)),
                        ));
                    }
                    finished = true;
                } else {
                proof {
                    match take_generics(self.remaining(), depth as nat) {
                        Some(p) => {
                            assert(take_generics(cur, depth0 as nat) == Some(
                                (seq![cur[0]] + p.0, p.1),
                            ));
                            assert(tokens_view(generics@) + p.0 =~= tokens_view(g0) + (seq![
                                cur[0],
                            ] + p.0));
                        }
                        None => {}
                    }
                }
                }
            } else {
                proof {
                    match take_generics(self.remaining(), depth as nat) {
                        Some(p) => {
                            assert(take_generics(cur, depth0 as nat) == Some(
                                (seq![cur[0]] + p.0, p.1),
                            ));
                            assert(tokens_view(generics@) + p.0 =~= tokens_view(g0) + (seq![
                                cur[0],
                            ] + p.0));
                        }
                        None => {}
                    }
                }
            }
            proof {
                if !finished {
                    assert(orig =~= tokens_view(generics@) + self.remaining());
                }
            }
        }
        generics
    }

    /// Parses the declaration from the tokens not yet consumed. On
    /// success the parsed declaration is exactly what the specification
    /// parser yields; failure is reported exactly when the specification
    /// parser yields nothing.
    pub fn parse_struct(&mut self) -> (r: Result<StructDef, MalformedDeclaration>)
        requires
            old(self).wf(),
        ensures
            final(self).wf(),
            match r {
                Ok(d) => parse_struct_spec(old(self).remaining()) == Some(d@),
                Err(_) => parse_struct_spec(old(self).remaining()) is None,
            },
    {
        let ghost orig = old(self).remaining();
        let mut attributes: Vec<Vec<Token>> = Vec::new();
        let mut visibility: Vec<Token> = Vec::new();
        let mut prefix_done: bool = false;

        #[verifier::loop_isolation(false)]
        while !prefix_done
            invariant
                self.wf(),
                self.tokens == old(self).tokens,
                !prefix_done ==> visibility@.len() == 0,
                !prefix_done ==> match parse_struct_spec(self.remaining()) {
                    Some(d) => parse_struct_spec(orig) == Some(
                        StructDefV { attributes: token_runs_view(attributes@) + d.attributes, ..d },
                    ),
                    None => parse_struct_spec(orig) is None,
                },
                prefix_done ==> match parse_body(self.remaining(), tokens_view(visibility@)) {
                    Some(d) => parse_struct_spec(orig) == Some(
                        StructDefV { attributes: token_runs_view(attributes@) + d.attributes, ..d },
                    ),
                    None => parse_struct_spec(orig) is None,
                },
            decreases (if prefix_done { 0int } else { 1int }), self.remaining().len(),
        {
            if self.done() {
                return Err(MalformedDeclaration);
            }
            let ghost cur = self.remaining();
            let head_is_marker = is_punct(self.peek(), '#');
            let head_is_pub = is_kw(self.peek(), "pub");
            let head_is_struct = is_kw(self.peek(), "struct");
            if head_is_marker {
                let ghost a0 = attributes@;
                let attr = self.parse_attribute();
                attributes.push(attr);
                proof {
                    let n = marker_take(cur);
                    assert(token_runs_view(attributes@) =~= token_runs_view(a0).push(
                        cur.subrange(0, n),
                    ));
                    match parse_struct_spec(self.remaining()) {
                        Some(d) => {
                            assert(parse_struct_spec(cur) == Some(
                                StructDefV {
                                    attributes: seq![cur.subrange(0, n)] + d.attributes,
                                    ..d
                                },
                            ));
                            assert(token_runs_view(attributes@) + d.attributes =~= token_runs_view(
                                a0,
                            ) + (seq![cur.subrange(0, n)] + d.attributes));
                        }
                        None => {}
                    }
                }
            } else if head_is_pub {
                let v1 = self.next();
                visibility.push(v1);
                if !self.done() && is_group(self.peek()) {
                    let v2 = self.next();
                    visibility.push(v2);
                    proof {
                        assert(marker_take(cur) == 2);
                        assert(tokens_view(visibility@) =~= cur.subrange(0, 2));
                        assert(self.remaining() =~= cur.subrange(2, cur.len() as int));
                    }
                } else {
                    proof {
                        assert(marker_take(cur) == 1);
                        assert(tokens_view(visibility@) =~= cur.subrange(0, 1));
                    }
                }
                prefix_done = true;
            } else if head_is_struct {
                prefix_done = true;
            } else {
                self.advance();
                proof {
                    assert(self.remaining() =~= cur.subrange(1, cur.len() as int));
                }
            }
        }

        let ghost bodyrem = self.remaining();
        let ghost visv = tokens_view(visibility@);

        if self.done() {
            return Err(MalformedDeclaration);
        }
        let struct_token = self.next();
        if self.done() {
            return Err(MalformedDeclaration);
        }
        let name = self.next();
        proof {
            assert(self.remaining() =~= bodyrem.subrange(2, bodyrem.len() as int));
        }
        let ghost bodyrest = self.remaining();

        let generics: Option<Vec<Token>> = if !self.done() && is_punct(self.peek(), '<') {
            let g = self.parse_generics();
            Some(g)
        } else {
            None
        };

        if self.done() {
            return Err(MalformedDeclaration);
        }
        let fields_group = self.next();
        if !is_group(&fields_group) {
            return Err(MalformedDeclaration);
        }

        let d = StructDef { attributes, visibility, struct_token, name, generics, fields_group };
        proof {
            assert(token_runs_view(d.attributes@) + Seq::<Seq<TokenV>>::empty() =~= token_runs_view(
                d.attributes@,
            ));
            match parse_body(bodyrem, visv) {
                Some(dd) => {
                    assert(d@ =~= StructDefV {
                        attributes: token_runs_view(d.attributes@) + dd.attributes,
                        ..dd
                    });
                }
                None => {}
            }
        }
        Ok(d)
    }
}

} // verus!
