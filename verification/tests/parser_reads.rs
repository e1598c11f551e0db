use falsy::ast::{FalseInstruction, Spanned};
use falsy::parser::{escaped_string, false_name, parse, ParseDiagKind};

fn parse_string(input: &str) -> String {
    escaped_string(input).unwrap()
}

#[test]
fn test_escaped_string() {
    assert_eq!(&parse_string(r#""Hello, World!""#), "Hello, World!");
    assert_eq!(&parse_string(r#""Hello, \"World\"!""#), "Hello, \"World\"!");
    assert_eq!(
        &parse_string(r#""Hello, \\\"World\"!""#),
        "Hello, \\\"World\"!"
    );
}

#[test]
fn escaped_string_decodes_named_escapes() {
    assert_eq!(parse_string("\"a\\nb\\tc\\rd\\be\\ff\""), "a\nb\tc\rd\u{8}e\u{c}f");
    assert_eq!(parse_string("\"a\\/b\""), "a/b");
}

#[test]
fn escaped_string_decodes_unicode_escapes() {
    assert_eq!(parse_string("\"a\\u0041b\""), "aAb");
    assert_eq!(parse_string("\"\\u00e9\""), "\u{e9}");
}

#[test]
fn escaped_string_rejects_other_input() {
    assert!(escaped_string("no quotes").is_none());
    assert!(escaped_string("\"unterminated").is_none());
    assert!(escaped_string("\"trailing\"x").is_none());
}

#[test]
fn false_name_accepts_exactly_lowercase_letters() {
    assert_eq!(false_name('a'), Some('a'));
    assert_eq!(false_name('z'), Some('z'));
    assert_eq!(false_name('A'), None);
    assert_eq!(false_name('1'), None);
}

fn instructions_of(src: &str) -> Vec<Spanned> {
    let (ast, diags) = parse(src);
    assert!(diags.is_empty(), "unexpected diagnostics for {src}");
    ast
}

#[test]
fn parses_integers_names_and_operators() {
    let ast = instructions_of("12 a+");
    assert_eq!(ast.len(), 3);
    assert_eq!(*ast[0].instruction(), FalseInstruction::PushInt(12));
    assert_eq!(*ast[1].instruction(), FalseInstruction::Name('a'));
    assert_eq!(*ast[2].instruction(), FalseInstruction::Add);
    assert_eq!(ast[0].span().start, 0);
    assert_eq!(ast[0].span().end, 2);
}

#[test]
fn parses_every_single_character_operator() {
    let ast = instructions_of("$%\\@\u{f8}+-*/_&|~>=!:;^,.\u{df}");
    let expected = [
        FalseInstruction::Dup,
        FalseInstruction::Drop,
        FalseInstruction::Swap,
        FalseInstruction::Rot,
        FalseInstruction::Pick,
        FalseInstruction::Add,
        FalseInstruction::Sub,
        FalseInstruction::Mul,
        FalseInstruction::Div,
        FalseInstruction::Neg,
        FalseInstruction::BitAnd,
        FalseInstruction::BitOr,
        FalseInstruction::BitNot,
        FalseInstruction::Gt,
        FalseInstruction::Eq,
        FalseInstruction::Execute,
        FalseInstruction::Store,
        FalseInstruction::Fetch,
        FalseInstruction::ReadChar,
        FalseInstruction::WriteChar,
        FalseInstruction::WriteInt,
        FalseInstruction::Flush,
    ];
    assert_eq!(ast.len(), expected.len());
    for (sp, want) in ast.iter().zip(expected.iter()) {
        assert_eq!(sp.instruction(), want);
    }
}

#[test]
fn comments_are_transparent() {
    let ast = instructions_of("1{a comment}2");
    assert_eq!(ast.len(), 2);
    assert_eq!(*ast[0].instruction(), FalseInstruction::PushInt(1));
    assert_eq!(*ast[1].instruction(), FalseInstruction::PushInt(2));
}

#[test]
fn char_literal_takes_the_next_character() {
    let ast = instructions_of("'a'0");
    assert_eq!(ast.len(), 2);
    assert_eq!(*ast[0].instruction(), FalseInstruction::PushChar(97));
    assert_eq!(*ast[1].instruction(), FalseInstruction::PushChar(48));
}

#[test]
fn a_bare_block_is_a_lambda() {
    let ast = instructions_of("[1]");
    assert_eq!(ast.len(), 1);
    match ast[0].instruction() {
        FalseInstruction::Lambda(body) => {
            assert_eq!(body.len(), 1);
            assert_eq!(*body[0].instruction(), FalseInstruction::PushInt(1));
        }
        other => panic!("expected a lambda, got {other:?}"),
    }
}

#[test]
fn a_block_before_question_mark_is_a_conditional() {
    let ast = instructions_of("[1]?");
    assert_eq!(ast.len(), 1);
    assert!(matches!(
        ast[0].instruction(),
        FalseInstruction::ConditionalExecute(_)
    ));
}

#[test]
fn two_blocks_before_hash_are_a_while_loop() {
    let ast = instructions_of("[1][2]#");
    assert_eq!(ast.len(), 1);
    match ast[0].instruction() {
        FalseInstruction::WhileLoop(cond, body) => {
            assert_eq!(*cond[0].instruction(), FalseInstruction::PushInt(1));
            assert_eq!(*body[0].instruction(), FalseInstruction::PushInt(2));
        }
        other => panic!("expected a while loop, got {other:?}"),
    }
}

#[test]
fn adjacent_blocks_without_hash_are_two_lambdas() {
    let ast = instructions_of("[1][2]");
    assert_eq!(ast.len(), 2);
    assert!(matches!(ast[0].instruction(), FalseInstruction::Lambda(_)));
    assert!(matches!(ast[1].instruction(), FalseInstruction::Lambda(_)));
}

#[test]
fn three_blocks_then_hash_pair_the_last_two() {
    let ast = instructions_of("[1][2][3]#");
    assert_eq!(ast.len(), 2);
    assert!(matches!(ast[0].instruction(), FalseInstruction::Lambda(_)));
    assert!(matches!(ast[1].instruction(), FalseInstruction::WhileLoop(_, _)));
}

#[test]
fn blocks_nest() {
    let ast = instructions_of("[[1]?]");
    assert_eq!(ast.len(), 1);
    match ast[0].instruction() {
        FalseInstruction::Lambda(body) => {
            assert!(matches!(
                body[0].instruction(),
                FalseInstruction::ConditionalExecute(_)
            ));
        }
        other => panic!("expected a lambda, got {other:?}"),
    }
}

#[test]
fn a_missing_close_recovers_with_one_diagnostic() {
    let (ast, diags) = parse("1[2");
    assert_eq!(diags.len(), 1);
    assert_eq!(diags[0].kind, ParseDiagKind::MissingClose);
    assert_eq!(ast.len(), 2);
    assert_eq!(*ast[0].instruction(), FalseInstruction::PushInt(1));
    match ast[1].instruction() {
        FalseInstruction::Lambda(body) => {
            assert_eq!(*body[0].instruction(), FalseInstruction::PushInt(2));
        }
        other => panic!("expected a lambda, got {other:?}"),
    }
}

#[test]
fn an_unexpected_character_is_reported_and_skipped() {
    let (ast, diags) = parse("1#2");
    assert_eq!(diags.len(), 1);
    assert_eq!(diags[0].kind, ParseDiagKind::UnexpectedChar);
    assert_eq!(ast.len(), 2);
}

#[test]
fn a_stray_close_bracket_is_reported() {
    let (ast, diags) = parse("]");
    assert_eq!(ast.len(), 0);
    assert_eq!(diags.len(), 1);
    assert_eq!(diags[0].kind, ParseDiagKind::UnexpectedChar);
}

#[test]
fn an_unterminated_comment_is_reported() {
    let (ast, diags) = parse("1{never closed");
    assert_eq!(ast.len(), 1);
    assert_eq!(diags.len(), 1);
    assert_eq!(diags[0].kind, ParseDiagKind::UnterminatedComment);
}

#[test]
fn an_unterminated_string_is_reported() {
    let (ast, diags) = parse("\"open");
    assert_eq!(ast.len(), 1);
    assert!(matches!(ast[0].instruction(), FalseInstruction::WriteStr(_)));
    assert_eq!(diags.len(), 1);
    assert_eq!(diags[0].kind, ParseDiagKind::UnterminatedString);
}

#[test]
fn a_too_large_integer_is_reported() {
    let (ast, diags) = parse("99999999999");
    assert_eq!(ast.len(), 0);
    assert_eq!(diags.len(), 1);
    assert_eq!(diags[0].kind, ParseDiagKind::IntOutOfRange);
}

#[test]
fn the_largest_integer_still_parses() {
    let ast = instructions_of("2147483647");
    assert_eq!(*ast[0].instruction(), FalseInstruction::PushInt(2147483647));
}

#[test]
fn a_non_ascii_char_literal_is_reported() {
    let (ast, diags) = parse("'\u{e9}");
    assert_eq!(ast.len(), 0);
    assert_eq!(diags.len(), 1);
    assert_eq!(diags[0].kind, ParseDiagKind::InvalidCharLiteral);
}

#[test]
fn an_invalid_unicode_escape_substitutes_the_replacement_character() {
    let (ast, diags) = parse("\"\\ud800\"");
    assert_eq!(diags.len(), 1);
    assert_eq!(diags[0].kind, ParseDiagKind::InvalidUnicode);
    match ast[0].instruction() {
        FalseInstruction::WriteStr(s) => assert_eq!(s, "\u{fffd}"),
        other => panic!("expected a string, got {other:?}"),
    }
}

#[test]
fn a_short_unicode_escape_is_an_invalid_escape() {
    let (_ast, diags) = parse("\"\\u12\"");
    assert!(diags
        .iter()
        .any(|d| d.kind == ParseDiagKind::InvalidEscape));
}

#[test]
fn diagnostics_carry_spans_and_messages() {
    let (_ast, diags) = parse("1#");
    assert_eq!(diags[0].span.start, 1);
    assert_eq!(diags[0].span.end, 2);
    assert!(!diags[0].message.is_empty());
}
