use pub_if::emit::{create_cfg_attribute, generate_struct_with_cfg};
use pub_if::parse::Parser;
use pub_if::pub_if;
use pub_if::rewrite::make_fields_public;
use pub_if::token::{Delimiter, Token};

fn id(s: &str) -> Token {
    Token::Ident(s.to_string())
}

fn punct(c: char) -> Token {
    Token::Punct(c, false)
}

fn lit(s: &str) -> Token {
    Token::Literal(s.to_string())
}

fn braces(ts: Vec<Token>) -> Token {
    Token::Group(Delimiter::Brace, ts)
}

fn parens(ts: Vec<Token>) -> Token {
    Token::Group(Delimiter::Parenthesis, ts)
}

fn brackets(ts: Vec<Token>) -> Token {
    Token::Group(Delimiter::Bracket, ts)
}

/// `feature = "foo"` as condition tokens.
fn feature_foo() -> Vec<Token> {
    vec![id("feature"), punct('='), lit("\"foo\"")]
}

/// `#[cfg(feature = "foo")]` as tokens.
fn cfg_attr() -> Vec<Token> {
    vec![punct('#'), brackets(vec![id("cfg"), parens(feature_foo())])]
}

/// `#[cfg(not(feature = "foo"))]` as tokens.
fn cfg_not_attr() -> Vec<Token> {
    vec![
        punct('#'),
        brackets(vec![id("cfg"), parens(vec![id("not"), parens(feature_foo())])]),
    ]
}

#[test]
fn scenario_simple_struct() {
    // pub struct S { field: i32, pub bar: String } with feature = "foo"
    let item = vec![
        id("pub"),
        id("struct"),
        id("S"),
        braces(vec![
            id("field"),
            punct(':'),
            id("i32"),
            punct(','),
            id("pub"),
            id("bar"),
            punct(':'),
            id("String"),
        ]),
    ];
    let out = pub_if(feature_foo(), item).unwrap();

    let mut expected = cfg_attr();
    expected.extend(vec![
        id("pub"),
        id("struct"),
        id("S"),
        braces(vec![
            id("pub"),
            id("field"),
            punct(':'),
            id("i32"),
            punct(','),
            id("pub"),
            id("bar"),
            punct(':'),
            id("String"),
        ]),
    ]);
    expected.extend(cfg_not_attr());
    expected.extend(vec![
        id("pub"),
        id("struct"),
        id("S"),
        braces(vec![
            id("field"),
            punct(':'),
            id("i32"),
            punct(','),
            id("pub"),
            id("bar"),
            punct(':'),
            id("String"),
        ]),
    ]);
    assert_eq!(out, expected);
}

#[test]
fn scenario_generic_struct() {
    // pub struct S<T> { a: T }: both variants keep <T>; the all-visible
    // variant's body becomes { pub a: T }.
    let item = vec![
        id("pub"),
        id("struct"),
        id("S"),
        punct('<'),
        id("T"),
        punct('>'),
        braces(vec![id("a"), punct(':'), id("T")]),
    ];
    let out = pub_if(feature_foo(), item).unwrap();

    let mut expected = cfg_attr();
    expected.extend(vec![
        id("pub"),
        id("struct"),
        id("S"),
        punct('<'),
        id("T"),
        punct('>'),
        braces(vec![id("pub"), id("a"), punct(':'), id("T")]),
    ]);
    expected.extend(cfg_not_attr());
    expected.extend(vec![
        id("pub"),
        id("struct"),
        id("S"),
        punct('<'),
        id("T"),
        punct('>'),
        braces(vec![id("a"), punct(':'), id("T")]),
    ]);
    assert_eq!(out, expected);
}

#[test]
fn generics_with_nested_group_round_trip() {
    // struct S<const N: usize = { 1 }> { a: i32 }: the generic run holds
    // a nested brace group and must come through both variants unchanged.
    let generics = vec![
        punct('<'),
        id("const"),
        id("N"),
        punct(':'),
        id("usize"),
        punct('='),
        braces(vec![lit("1")]),
        punct('>'),
    ];
    let mut item = vec![id("struct"), id("S")];
    item.extend(generics.clone());
    item.push(braces(vec![id("a"), punct(':'), id("i32")]));

    let out = pub_if(feature_foo(), item).unwrap();

    // each variant ends with its member group; the generic run stands
    // directly before it (both variants have the same length here)
    assert_eq!(out.len() % 2, 0);
    let first_body_at = out.len() / 2 - 1;
    assert!(matches!(&out[first_body_at], Token::Group(Delimiter::Brace, _)));
    assert_eq!(&out[first_body_at - generics.len()..first_body_at], &generics[..]);
    let second_body_at = out.len() - 1;
    assert!(matches!(&out[second_body_at], Token::Group(Delimiter::Brace, _)));
    assert_eq!(&out[second_body_at - generics.len()..second_body_at], &generics[..]);
}

#[test]
fn rewriter_is_idempotent_on_visible_members() {
    let group = braces(vec![
        id("pub"),
        id("x"),
        punct(':'),
        id("i32"),
        punct(','),
        id("pub"),
        id("y"),
        punct(':'),
        id("u8"),
    ]);
    let rewritten = make_fields_public(&group);
    assert_eq!(rewritten, group);
}

#[test]
fn rewriter_inserts_one_keyword_per_member() {
    let group = braces(vec![
        id("x"),
        punct(':'),
        id("i32"),
        punct(','),
        id("pub"),
        id("y"),
        punct(':'),
        id("u8"),
        punct(','),
        id("z"),
        punct(':'),
        id("bool"),
    ]);
    let rewritten = make_fields_public(&group);
    let inner = match &rewritten {
        Token::Group(_, ts) => ts,
        _ => panic!("not a group"),
    };
    let pubs = inner
        .iter()
        .filter(|t| matches!(t, Token::Ident(s) if s.as_str() == "pub"))
        .count();
    assert_eq!(pubs, 3);
}

#[test]
fn rewriter_leaves_malformed_member_alone() {
    // a member name not followed by the separator is left unmodified
    let group = braces(vec![id("x")]);
    let rewritten = make_fields_public(&group);
    assert_eq!(rewritten, braces(vec![id("x")]));
}

#[test]
fn rewriter_keeps_delimiter_kind() {
    let group = parens(vec![id("x"), punct(':'), id("i32")]);
    let rewritten = make_fields_public(&group);
    assert_eq!(rewritten, parens(vec![id("pub"), id("x"), punct(':'), id("i32")]));
}

#[test]
fn cfg_attribute_unnegated() {
    let out = create_cfg_attribute(&feature_foo(), false);
    assert_eq!(out, cfg_attr());
}

#[test]
fn cfg_attribute_negated() {
    let out = create_cfg_attribute(&feature_foo(), true);
    assert_eq!(out, cfg_not_attr());
}

#[test]
fn parser_skips_leading_tokens_silently() {
    let item = vec![
        id("stray"),
        lit("1"),
        id("struct"),
        id("S"),
        braces(vec![]),
    ];
    let mut parser = Parser::new(item);
    let d = parser.parse_struct().unwrap();
    assert!(d.attributes.is_empty());
    assert!(d.visibility.is_empty());
    assert_eq!(d.struct_token, id("struct"));
    assert_eq!(d.name, id("S"));
    assert!(d.generics.is_none());
    assert_eq!(d.fields_group, braces(vec![]));
}

#[test]
fn parser_captures_annotations_and_scoped_visibility() {
    let attr_body = brackets(vec![id("derive"), parens(vec![id("Clone")])]);
    let item = vec![
        punct('#'),
        attr_body.clone(),
        id("pub"),
        parens(vec![id("crate")]),
        id("struct"),
        id("S"),
        braces(vec![]),
    ];
    let mut parser = Parser::new(item);
    let d = parser.parse_struct().unwrap();
    assert_eq!(d.attributes, vec![vec![punct('#'), attr_body]]);
    assert_eq!(d.visibility, vec![id("pub"), parens(vec![id("crate")])]);
    assert_eq!(d.struct_token, id("struct"));
    assert_eq!(d.name, id("S"));
}

#[test]
fn parser_rejects_empty_input() {
    let mut parser = Parser::new(vec![]);
    assert!(parser.parse_struct().is_err());
}

#[test]
fn parser_rejects_missing_member_group() {
    let mut parser = Parser::new(vec![id("struct"), id("S")]);
    assert!(parser.parse_struct().is_err());
}

#[test]
fn parser_rejects_non_group_member_list() {
    let mut parser = Parser::new(vec![id("struct"), id("S"), id("oops")]);
    assert!(parser.parse_struct().is_err());
}

#[test]
fn parser_rejects_unbalanced_generics() {
    let mut parser = Parser::new(vec![id("struct"), id("S"), punct('<'), id("T")]);
    assert!(parser.parse_struct().is_err());
}

#[test]
fn transform_fails_on_malformed_item() {
    assert!(pub_if(feature_foo(), vec![id("fn"), id("f")]).is_err());
}

#[test]
fn variants_share_declaration_tokens() {
    let item = vec![
        punct('#'),
        brackets(vec![id("derive"), parens(vec![id("Debug")])]),
        id("pub"),
        id("struct"),
        id("S"),
        braces(vec![id("a"), punct(':'), id("u8")]),
    ];
    let mut parser = Parser::new(item);
    let d = parser.parse_struct().unwrap();
    let cond = feature_foo();
    let with = generate_struct_with_cfg(&d, &cond, true);
    let without = generate_struct_with_cfg(&d, &cond, false);
    // both variants: two guard tokens, then identical declaration
    // tokens, then the member group
    assert_eq!(with[2..with.len() - 1], without[2..without.len() - 1]);
    // the preserved variant carries the member group unchanged
    assert_eq!(without.last().unwrap(), &d.fields_group);
    // only the all-visible variant's member group differs
    assert_eq!(
        with.last().unwrap(),
        &braces(vec![id("pub"), id("a"), punct(':'), id("u8")])
    );
}

#[test]
fn transform_is_pure() {
    let item = vec![
        id("pub"),
        id("struct"),
        id("S"),
        braces(vec![id("a"), punct(':'), id("u8")]),
    ];
    let first = pub_if(feature_foo(), item.clone()).unwrap();
    let second = pub_if(feature_foo(), item).unwrap();
    assert_eq!(first, second);
}

#[test]
fn annotations_carried_into_both_variants() {
    let attr_body = brackets(vec![id("derive"), parens(vec![id("Debug")])]);
    let item = vec![
        punct('#'),
        attr_body.clone(),
        id("struct"),
        id("S"),
        braces(vec![id("a"), punct(':'), id("u8")]),
    ];
    let out = pub_if(feature_foo(), item).unwrap();
    let copies = out.iter().filter(|t| **t == attr_body).count();
    assert_eq!(copies, 2);
}
