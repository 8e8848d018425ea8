//! The visibility rewriter: walks a member-list token group and inserts a
//! visibility keyword before every member name that lacks one, leaving
//! already-visible members and separators untouched.

use vstd::prelude::*;

use crate::token::{
    ident_is, is_ident_named, is_punct, is_punct_ch, token_view, tokens_view, Token, TokenV,
};

verus! {

broadcast use crate::token::lemma_tokens_view;

/// The visibility keyword as a token value.
pub open spec fn pub_token() -> TokenV {
    TokenV::Ident("pub"@)
}

/// True of a separator between members (comma or semicolon).
pub open spec fn is_separator(t: TokenV) -> bool {
    is_punct_ch(t, ',') || is_punct_ch(t, ';')
}

/// What the rewriter produces on the inner run of a member-list group,
/// walking with one token of lookahead and the flag "just emitted a
/// visibility keyword":
/// - the visibility keyword is copied through and sets the flag;
/// - any other identifier immediately followed by the member separator
///   `:` is, unless the flag is set, prefixed with a synthesized
///   visibility keyword; the flag resets afterward;
/// - a comma or semicolon resets the flag;
/// - every other token is copied through unchanged, flag untouched.
pub open spec fn rewrite_members(ts: Seq<TokenV>, saw_pub: bool) -> Seq<TokenV>
    decreases ts.len(),
{
    if ts.len() == 0 {
        Seq::empty()
    } else {
        let t = ts[0];
        let rest = ts.subrange(1, ts.len() as int);
        if is_ident_named(t, "pub"@) {
            seq![t] + rewrite_members(rest, true)
        } else if t is Ident {
            if !saw_pub && ts.len() > 1 && is_punct_ch(ts[1], ':') {
                seq![pub_token(), t] + rewrite_members(rest, false)
            } else {
                seq![t] + rewrite_members(rest, false)
            }
        } else if is_separator(t) {
            seq![t] + rewrite_members(rest, false)
        } else {
            seq![t] + rewrite_members(rest, saw_pub)
        }
    }
}

/// True of the position `j` where a member starts: an identifier other
/// than the visibility keyword, immediately followed by the separator
/// introducing the member's type.
pub open spec fn is_member_start(ts: Seq<TokenV>, j: int) -> bool {
    &&& 0 <= j
    &&& j + 1 < ts.len()
    &&& ts[j] is Ident
    &&& !is_ident_named(ts[j], "pub"@)
    &&& is_punct_ch(ts[j + 1], ':')
}

/// The number of members in the run: one for each member-start position.
pub open spec fn count_members(ts: Seq<TokenV>) -> nat
    decreases ts.len(),
{
    if ts.len() == 0 {
        0
    } else {
        (if is_member_start(ts, 0) {
            1nat
        } else {
            0nat
        }) + count_members(ts.subrange(1, ts.len() as int))
    }
}

/// The number of visibility keywords in the run.
pub open spec fn count_pub(ts: Seq<TokenV>) -> nat
    decreases ts.len(),
{
    if ts.len() == 0 {
        0
    } else {
        (if is_ident_named(ts[0], "pub"@) {
            1nat
        } else {
            0nat
        }) + count_pub(ts.subrange(1, ts.len() as int))
    }
}

/// Every member of the run already carries an explicit visibility
/// keyword, immediately before its name.
pub open spec fn all_members_visible(ts: Seq<TokenV>) -> bool {
    forall|j: int| is_member_start(ts, j) ==> j >= 1 && is_ident_named(ts[j - 1], "pub"@)
}

/// Every visibility keyword in the run immediately precedes a member
/// name: the shape of a member list whose visibility markers all do
/// their ordinary work.
pub open spec fn wf_member_list(ts: Seq<TokenV>) -> bool {
    forall|j: int|
        0 <= j < ts.len() && is_ident_named(#[trigger] ts[j], "pub"@) ==> j + 2 < ts.len()
            && ts[j + 1] is Ident && !is_ident_named(ts[j + 1], "pub"@) && is_punct_ch(
            ts[j + 2],
            ':',
        )
}

proof fn lemma_rewrite_visible_aux(ts: Seq<TokenV>, saw_pub: bool)
    requires
        is_member_start(ts, 0) ==> saw_pub,
        forall|j: int| is_member_start(ts, j) && j >= 1 ==> is_ident_named(ts[j - 1], "pub"@),
    ensures
        rewrite_members(ts, saw_pub) == ts,
    decreases ts.len(),
{
    if ts.len() > 0 {
        let t = ts[0];
        let rest = ts.subrange(1, ts.len() as int);
        assert forall|j: int| is_member_start(rest, j) implies is_member_start(ts, j + 1) by {
            assert(rest[j] == ts[j + 1]);
            assert(rest[j + 1] == ts[j + 2]);
        }
        if is_ident_named(t, "pub"@) {
            lemma_rewrite_visible_aux(rest, true);
        } else if t is Ident {
            assert(!(ts.len() > 1 && is_punct_ch(ts[1], ':')) || saw_pub);
            lemma_rewrite_visible_aux(rest, false);
        } else if is_separator(t) {
            lemma_rewrite_visible_aux(rest, false);
        } else {
            lemma_rewrite_visible_aux(rest, saw_pub);
        }
        assert(seq![t] + rest =~= ts);
    }
}

/// Idempotence of rewriting already-visible members: a member list where
/// every member already has an explicit visibility keyword comes back
/// from the rewriter unchanged, token for token.
pub proof fn lemma_rewrite_idempotent(ts: Seq<TokenV>)
    requires
        all_members_visible(ts),
    ensures
        rewrite_members(ts, false) == ts,
{
    lemma_rewrite_visible_aux(ts, false);
}

proof fn lemma_count_pub_cons(t: TokenV, rest: Seq<TokenV>)
    ensures
        count_pub(seq![t] + rest) == (if is_ident_named(t, "pub"@) {
            1nat
        } else {
            0nat
        }) + count_pub(rest),
{
    let s = seq![t] + rest;
    assert(s.subrange(1, s.len() as int) =~= rest);
}

proof fn lemma_rewrite_complete_aux(ts: Seq<TokenV>, saw_pub: bool)
    requires
        wf_member_list(ts),
        saw_pub ==> is_member_start(ts, 0),
    ensures
        count_pub(rewrite_members(ts, saw_pub)) + (if saw_pub {
            1nat
        } else {
            0nat
        }) == count_members(ts),
    decreases ts.len(),
{
    if ts.len() > 0 {
        let t = ts[0];
        let rest = ts.subrange(1, ts.len() as int);
        assert(wf_member_list(rest)) by {
            assert forall|j: int|
                0 <= j < rest.len() && is_ident_named(#[trigger] rest[j], "pub"@) implies j + 2
                < rest.len() && rest[j + 1] is Ident && !is_ident_named(rest[j + 1], "pub"@)
                && is_punct_ch(rest[j + 2], ':') by {
                assert(rest[j] == ts[j + 1]);
                assert(ts[j + 2] == rest[j + 1]);
                assert(ts[j + 3] == rest[j + 2]);
            }
        }
        if is_ident_named(t, "pub"@) {
            assert(rest[0] == ts[1]);
            assert(rest[1] == ts[2]);
            assert(is_member_start(ts, 1));
            assert(is_member_start(rest, 0));
            lemma_rewrite_complete_aux(rest, true);
            lemma_count_pub_cons(t, rewrite_members(rest, true));
        } else if t is Ident {
            if !saw_pub && ts.len() > 1 && is_punct_ch(ts[1], ':') {
                lemma_rewrite_complete_aux(rest, false);
                lemma_count_pub_cons(pub_token(), seq![t] + rewrite_members(rest, false));
                lemma_count_pub_cons(t, rewrite_members(rest, false));
                assert(seq![pub_token(), t] + rewrite_members(rest, false) =~= seq![pub_token()]
                    + (seq![t] + rewrite_members(rest, false)));
            } else {
                lemma_rewrite_complete_aux(rest, false);
                lemma_count_pub_cons(t, rewrite_members(rest, false));
            }
        } else if is_separator(t) {
            lemma_rewrite_complete_aux(rest, false);
            lemma_count_pub_cons(t, rewrite_members(rest, false));
        } else {
            assert(!saw_pub);
            lemma_rewrite_complete_aux(rest, false);
            lemma_count_pub_cons(t, rewrite_members(rest, false));
        }
    }
}

/// Completeness of rewriting: on a member list whose visibility keywords
/// each stand immediately before a member name, the rewriter's output
/// holds exactly one visibility keyword per member — no more, no less.
pub proof fn lemma_rewrite_complete(ts: Seq<TokenV>)
    requires
        wf_member_list(ts),
    ensures
        count_pub(rewrite_members(ts, false)) == count_members(ts),
{
    lemma_rewrite_complete_aux(ts, false);
}

/// Rewrites the member list of `group` so that every member is visible.
/// Total and never failing: tokens that do not look like members are
/// copied through unchanged.
pub fn make_fields_public(group: &Token) -> (r: Token)
    requires
        group@ is Group,
    ensures
        r@ == TokenV::Group(group@->Group_0, rewrite_members(group@->Group_1, false)),
{
    match group {
        Token::Group(delim, ts) => {
            let ghost full: Seq<TokenV> = tokens_view(ts@);
            let mut out: Vec<Token> = Vec::new();
            let mut just_saw_pub = false;
            let mut i: usize = 0;
            proof {
                assert(full.subrange(0, full.len() as int) =~= full);
            }
            #[verifier::loop_isolation(false)]
            while i < ts.len()
                invariant
                    i <= ts.len(),
                    rewrite_members(full, false) == tokens_view(out@) + rewrite_members(
                        full.subrange(i as int, full.len() as int),
                        just_saw_pub,
                    ),
                decreases ts.len() - i,
            {
                let ghost cur = full.subrange(i as int, full.len() as int);
                proof {
                    assert(cur[0] == token_view(ts@[i as int]));
                    assert(cur.subrange(1, cur.len() as int) =~= full.subrange(
                        i + 1,
                        full.len() as int,
                    ));
                }
                let ghost out0 = out@;
                let ghost saw0 = just_saw_pub;
                match &ts[i] {
                    Token::Ident(name) => {
                        if ident_is(name, "pub") {
                            out.push(ts[i].clone());
                            just_saw_pub = true;
                        } else if !just_saw_pub && i + 1 < ts.len() && is_punct(&ts[i + 1], ':') {
                            out.push(Token::Ident("pub".to_owned()));
                            out.push(ts[i].clone());
                            just_saw_pub = false;
                            proof {
                                assert(tokens_view(out@) =~= tokens_view(out0) + seq![
                                    pub_token(),
                                    cur[0],
                                ]);
                            }
                        } else {
                            out.push(ts[i].clone());
                            just_saw_pub = false;
                        }
                    }
                    Token::Punct(c, _) if *c == ',' || *c == ';' => {
                        out.push(ts[i].clone());
                        just_saw_pub = false;
                    }
                    _ => {
                        out.push(ts[i].clone());
                    }
                }
                proof {
                    if out@.len() == out0.len() + 1 {
                        assert(tokens_view(out@) =~= tokens_view(out0) + seq![cur[0]]);
                    }
                    assert(tokens_view(out@) + rewrite_members(
                        full.subrange(i + 1, full.len() as int),
                        just_saw_pub,
                    ) =~= rewrite_members(full, false));
                }
                i = i + 1;
            }
            proof {
                assert(full.subrange(ts.len() as int, full.len() as int) =~= Seq::<
                    TokenV,
                >::empty());
                assert(tokens_view(out@) + Seq::<TokenV>::empty() =~= tokens_view(out@));
            }
            Token::Group(*delim, out)
        }
        _ => {
            proof {
                assert(false);
            }
            unreached()
        }
    }
}

} // verus!
