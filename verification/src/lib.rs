//! A declaration transformer: given the token sequence of a single
//! structured-type declaration, it produces two alternative versions of
//! that declaration, each guarded by a mutually-exclusive build-time
//! condition. One version marks every member visible; the other preserves
//! each member's originally declared visibility.

pub mod emit;
pub mod parse;
pub mod rewrite;
pub mod token;

use vstd::prelude::*;

use crate::emit::{generate_spec, generate_struct_with_cfg};
use crate::parse::{lemma_parse_invariant, parse_struct_spec, MalformedDeclaration, Parser};
use crate::token::{append_tokens, tokens_view, Token};

verus! {

broadcast use crate::token::lemma_tokens_view;

/// The whole transformation: parse the annotated item's tokens, then
/// emit the "condition holds" variant (all members visible, guarded by
/// the condition) followed by the "condition does not hold" variant
/// (visibility preserved, guarded by the negated condition). Fails
/// exactly when the item does not parse as a record declaration.
pub fn pub_if(params: Vec<Token>, item: Vec<Token>) -> (r: Result<
    Vec<Token>,
    MalformedDeclaration,
>)
    ensures
        match r {
            Ok(out) => parse_struct_spec(tokens_view(item@)) matches Some(d) && tokens_view(out@)
                == generate_spec(d, tokens_view(params@), true) + generate_spec(
                d,
                tokens_view(params@),
                false,
            ),
            Err(_) => parse_struct_spec(tokens_view(item@)) is None,
        },
{
    let ghost itemv = tokens_view(item@);
    let mut parser = Parser::new(item);
    let struct_def = match parser.parse_struct() {
        Ok(d) => d,
        Err(e) => {
            return Err(e);
        }
    };
    proof {
        lemma_parse_invariant(itemv);
    }

    let cfg_enabled_version = generate_struct_with_cfg(&struct_def, &params, true);
    let cfg_disabled_version = generate_struct_with_cfg(&struct_def, &params, false);

    let mut output = cfg_enabled_version;
    append_tokens(&mut output, &cfg_disabled_version);
    Ok(output)
}

} // verus!
