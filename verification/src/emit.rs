//! The variant generator: consumes the parsed declaration plus the
//! condition expression twice, once to build the "condition holds"
//! variant (all members visible, guarded by the condition) and once to
//! build the "condition does not hold" variant (original visibility
//! preserved, guarded by the logical negation of the condition).

use vstd::prelude::*;

use crate::parse::{StructDef, StructDefV};
use crate::rewrite::{make_fields_public, rewrite_members};
use crate::token::{append_tokens, clone_tokens, tokens_view, Delimiter, Token, TokenV};

verus! {

broadcast use crate::token::lemma_tokens_view;

/// The guard's inner condition: the condition expression itself, or the
/// condition wrapped in a negation marker with a parenthesized group.
pub open spec fn guard_inner(condition: Seq<TokenV>, negate: bool) -> Seq<TokenV> {
    if negate {
        seq![TokenV::Ident("not"@), TokenV::Group(Delimiter::Parenthesis, condition)]
    } else {
        condition
    }
}

/// The synthesized conditional-compilation annotation: the marker token
/// and a bracket group holding the configuration keyword and the
/// parenthesized inner condition.
pub open spec fn cfg_attr_spec(condition: Seq<TokenV>, negate: bool) -> Seq<TokenV> {
    seq![
        TokenV::Punct('#', false),
        TokenV::Group(
            Delimiter::Bracket,
            seq![
                TokenV::Ident("cfg"@),
                TokenV::Group(Delimiter::Parenthesis, guard_inner(condition, negate)),
            ],
        ),
    ]
}

/// Builds the guard annotation: `#[cfg(<condition>)]`, or
/// `#[cfg(not(<condition>))]` when `negate` is set. This is the only
/// place negation is introduced.
pub fn create_cfg_attribute(condition: &Vec<Token>, negate: bool) -> (r: Vec<Token>)
    ensures
        tokens_view(r@) == cfg_attr_spec(tokens_view(condition@), negate),
{
    let mut inner_tokens: Vec<Token> = Vec::new();
    if negate {
        inner_tokens.push(Token::Ident("not".to_owned()));
        inner_tokens.push(Token::Group(Delimiter::Parenthesis, clone_tokens(condition)));
        proof {
            assert(tokens_view(inner_tokens@) =~= guard_inner(tokens_view(condition@), true));
        }
    } else {
        inner_tokens = clone_tokens(condition);
    }

    let mut cfg_tokens: Vec<Token> = Vec::new();
    cfg_tokens.push(Token::Ident("cfg".to_owned()));
    cfg_tokens.push(Token::Group(Delimiter::Parenthesis, inner_tokens));

    let mut output: Vec<Token> = Vec::new();
    output.push(Token::Punct('#', false));
    output.push(Token::Group(Delimiter::Bracket, cfg_tokens));
    proof {
        assert(tokens_view(cfg_tokens@) =~= seq![
            TokenV::Ident("cfg"@),
            TokenV::Group(
                Delimiter::Parenthesis,
                guard_inner(tokens_view(condition@), negate),
            ),
        ]);
        assert(tokens_view(output@) =~= cfg_attr_spec(tokens_view(condition@), negate));
    }
    output
}

/// The member group as emitted: rewritten so every member is visible
/// when `make_pub` is set, verbatim otherwise.
pub open spec fn member_group_out(fields_group: TokenV, make_pub: bool) -> TokenV {
    if make_pub {
        TokenV::Group(fields_group->Group_0, rewrite_members(fields_group->Group_1, false))
    } else {
        fields_group
    }
}

/// Everything a variant carries between its guard and its member group:
/// the declaration's own tokens, verbatim and in order.
pub open spec fn decl_prefix(d: StructDefV) -> Seq<TokenV> {
    d.attributes.flatten() + d.visibility + seq![d.struct_token, d.name] + (match d.generics {
        Some(g) => g,
        None => Seq::empty(),
    })
}

/// One gated variant: the synthesized guard annotation (negated exactly
/// when the members keep their declared visibility), the leading
/// annotations, the visibility prefix, the keyword, the name, the
/// generic run if present, and the member group — rewritten only in the
/// all-visible variant.
pub open spec fn generate_spec(d: StructDefV, condition: Seq<TokenV>, make_pub: bool) -> Seq<
    TokenV,
> {
    cfg_attr_spec(condition, !make_pub) + decl_prefix(d) + seq![
        member_group_out(d.fields_group, make_pub),
    ]
}

/// How the host's build-configuration evaluator treats a guard: the
/// unnegated guard is active exactly when the condition holds, and the
/// negation marker flips that. `condition_holds` stands for the truth
/// value the evaluator assigns to the condition expression itself.
pub open spec fn guard_active(negated: bool, condition_holds: bool) -> bool {
    if negated {
        !condition_holds
    } else {
        condition_holds
    }
}

/// Mutual exclusivity of the guards: the negated guard's inner condition
/// is exactly the other guard's inner condition wrapped once in a
/// negation marker with a parenthesized group, so under any truth
/// assignment to the condition exactly one of the two variants is kept.
pub proof fn lemma_guards_mutually_exclusive(condition: Seq<TokenV>, condition_holds: bool)
    ensures
        guard_inner(condition, true) == seq![
            TokenV::Ident("not"@),
            TokenV::Group(Delimiter::Parenthesis, guard_inner(condition, false)),
        ],
        guard_active(true, condition_holds) == !guard_active(false, condition_holds),
{
}

/// Verbatim preservation: each variant opens with its two-token guard,
/// then carries the declaration's own tokens — leading annotations,
/// visibility prefix, keyword, name and generic run — identical in both
/// variants, and closes with the member group; only that last token
/// differs between the variants, and only in the all-visible one.
pub proof fn lemma_verbatim_preservation(d: StructDefV, condition: Seq<TokenV>)
    ensures
        generate_spec(d, condition, true).len() == 3 + decl_prefix(d).len(),
        generate_spec(d, condition, false).len() == 3 + decl_prefix(d).len(),
        generate_spec(d, condition, true).subrange(0, 2) == cfg_attr_spec(condition, false),
        generate_spec(d, condition, false).subrange(0, 2) == cfg_attr_spec(condition, true),
        generate_spec(d, condition, true).subrange(2, 2 + decl_prefix(d).len() as int)
            == decl_prefix(d),
        generate_spec(d, condition, false).subrange(2, 2 + decl_prefix(d).len() as int)
            == decl_prefix(d),
        generate_spec(d, condition, false).last() == d.fields_group,
        generate_spec(d, condition, true).last() == member_group_out(d.fields_group, true),
{
    let p = decl_prefix(d);
    assert(generate_spec(d, condition, true).subrange(0, 2) =~= cfg_attr_spec(condition, false));
    assert(generate_spec(d, condition, false).subrange(0, 2) =~= cfg_attr_spec(condition, true));
    assert(generate_spec(d, condition, true).subrange(2, 2 + p.len() as int) =~= p);
    assert(generate_spec(d, condition, false).subrange(2, 2 + p.len() as int) =~= p);
}

/// Round trip of a generic-parameter run: whatever the parser captured —
/// nested delimited groups included — stands unmodified in both output
/// variants, directly before the member group.
pub proof fn lemma_generics_round_trip(d: StructDefV, condition: Seq<TokenV>, make_pub: bool)
    requires
        d.generics is Some,
    ensures
        generate_spec(d, condition, make_pub).subrange(
            generate_spec(d, condition, make_pub).len() - 1 - d.generics->Some_0.len(),
            generate_spec(d, condition, make_pub).len() - 1,
        ) == d.generics->Some_0,
{
    let g = d.generics->Some_0;
    let out = generate_spec(d, condition, make_pub);
    assert(out.subrange(out.len() - 1 - g.len(), out.len() - 1) =~= g);
}

/// Emits one gated variant of the parsed declaration.
pub fn generate_struct_with_cfg(
    struct_def: &StructDef,
    cfg_condition: &Vec<Token>,
    make_pub: bool,
) -> (r: Vec<Token>)
    requires
        struct_def@.fields_group is Group,
    ensures
        tokens_view(r@) == generate_spec(struct_def@, tokens_view(cfg_condition@), make_pub),
{
    let ghost cond = tokens_view(cfg_condition@);
    let mut output: Vec<Token> = create_cfg_attribute(cfg_condition, !make_pub);

    let ghost attrs = struct_def@.attributes;
    let mut i: usize = 0;
    #[verifier::loop_isolation(false)]
    while i < struct_def.attributes.len()
        invariant
            i <= struct_def.attributes.len(),
            tokens_view(output@) == cfg_attr_spec(cond, !make_pub) + attrs.subrange(
                0,
                i as int,
            ).flatten(),
        decreases struct_def.attributes.len() - i,
    {
        let ghost done = attrs.subrange(0, i as int);
        append_tokens(&mut output, &struct_def.attributes[i]);
        proof {
            assert(attrs.subrange(0, i + 1) =~= done.push(attrs[i as int]));
            done.lemma_flatten_push(attrs[i as int]);
            assert(tokens_view(output@) =~= cfg_attr_spec(cond, !make_pub) + attrs.subrange(
                0,
                i + 1,
            ).flatten());
        }
        i = i + 1;
    }
    proof {
        assert(attrs.subrange(0, attrs.len() as int) =~= attrs);
    }

    append_tokens(&mut output, &struct_def.visibility);
    let ghost o2 = output@;
    output.push(struct_def.struct_token.clone());
    output.push(struct_def.name.clone());
    proof {
        assert(tokens_view(output@) =~= tokens_view(o2) + seq![
            struct_def@.struct_token,
            struct_def@.name,
        ]);
    }

    match &struct_def.generics {
        Some(generics) => {
            append_tokens(&mut output, generics);
        }
        None => {}
    }
    let ghost o3 = output@;
    proof {
        assert(tokens_view(o3) =~= cfg_attr_spec(cond, !make_pub) + decl_prefix(struct_def@));
    }

    let new_fields: Token = if make_pub {
        make_fields_public(&struct_def.fields_group)
    } else {
        struct_def.fields_group.clone()
    };
    output.push(new_fields);
    proof {
        assert(tokens_view(output@) =~= tokens_view(o3) + seq![
            member_group_out(struct_def@.fields_group, make_pub),
        ]);
        assert(tokens_view(output@) =~= generate_spec(struct_def@, cond, make_pub));
    }
    output
}

} // verus!
