//! Tests of the lexer and the parser: tokenization, lookahead behaviour,
//! grammar shapes, precedence and the parse errors.

use kaleidoscope::ast::BinaryExprAst;
use kaleidoscope::ast::CallExprAst;
use kaleidoscope::ast::ExprAst;
use kaleidoscope::ast::OpSymbol;
use kaleidoscope::error::Error;
use kaleidoscope::error::LexError;
use kaleidoscope::error::ParserError;
use kaleidoscope::lex::Lexer;
use kaleidoscope::lex::Token;
use kaleidoscope::parser::Parser;

fn lex_all(input: &str) -> Vec<Token> {
    let mut lexer = Lexer::new(input.as_bytes().to_vec());
    let mut out = Vec::new();
    loop {
        let t = lexer.next().expect("lexing failed");
        let done = t == Token::EOF;
        out.push(t);
        if done {
            return out;
        }
    }
}

fn parse_expression(input: &str) -> ExprAst {
    let mut parser = Parser::new(input.as_bytes().to_vec()).expect("lexing failed");
    parser.parse_expr().expect("parse failed")
}

fn num(text: &str) -> ExprAst {
    ExprAst::Number(text.as_bytes().to_vec())
}

fn var(name: &str) -> ExprAst {
    ExprAst::Variable(name.as_bytes().to_vec())
}

fn bin(op: OpSymbol, lhs: ExprAst, rhs: ExprAst) -> ExprAst {
    ExprAst::Binary(Box::new(BinaryExprAst::new(op, lhs, rhs)))
}

fn call(name: &str, args: Vec<ExprAst>) -> ExprAst {
    ExprAst::Call(Box::new(CallExprAst::new(name.as_bytes().to_vec(), args)))
}

#[test]
fn precedence_mul_binds_tighter() {
    // "1 + 2 * 3" parses as 1 + (2 * 3)
    let ast = parse_expression("1 + 2 * 3");
    let expected = bin(OpSymbol::Add, num("1"), bin(OpSymbol::Mul, num("2"), num("3")));
    assert_eq!(ast, expected);
}

#[test]
fn precedence_after_mul() {
    // "2 * 3 + 1" parses as (2 * 3) + 1
    let ast = parse_expression("2 * 3 + 1");
    let expected = bin(OpSymbol::Add, bin(OpSymbol::Mul, num("2"), num("3")), num("1"));
    assert_eq!(ast, expected);
}

#[test]
fn left_associativity_shape() {
    // "8 - 4 - 2" parses as (8 - 4) - 2
    let ast = parse_expression("8 - 4 - 2");
    let expected = bin(OpSymbol::Sub, bin(OpSymbol::Sub, num("8"), num("4")), num("2"));
    assert_eq!(ast, expected);
}

#[test]
fn parens_override_precedence() {
    let ast = parse_expression("(1 + 2) * 3");
    let expected = bin(OpSymbol::Mul, bin(OpSymbol::Add, num("1"), num("2")), num("3"));
    assert_eq!(ast, expected);
}

#[test]
fn comparison_parses() {
    let ast = parse_expression("1 < 2");
    let expected = bin(OpSymbol::Less, num("1"), num("2"));
    assert_eq!(ast, expected);
    let ast = parse_expression("2 > 1");
    let expected = bin(OpSymbol::Greater, num("2"), num("1"));
    assert_eq!(ast, expected);
}

#[test]
fn call_with_arguments() {
    let ast = parse_expression("f(1, g(2), x)");
    let expected = call("f", vec![num("1"), call("g", vec![num("2")]), var("x")]);
    assert_eq!(ast, expected);
}

#[test]
fn call_without_arguments() {
    let ast = parse_expression("f()");
    assert_eq!(ast, call("f", vec![]));
}

#[test]
fn peek_then_next_agree() {
    // peek then next yield the same token; a consumed token is never
    // returned again
    let mut lexer = Lexer::new(b"a + b".to_vec());
    let peeked = lexer.peek().expect("peek failed").clone();
    let taken = lexer.next().expect("next failed");
    assert_eq!(peeked, taken);
    assert_eq!(taken, Token::Identifier(b"a".to_vec()));
    let after = lexer.next().expect("next failed");
    assert_ne!(after, taken);
    assert_eq!(after, Token::Add);
}

#[test]
fn eof_is_stable_under_repeated_peek() {
    let mut lexer = Lexer::new(b"x".to_vec());
    assert_eq!(lexer.next().expect("next"), Token::Identifier(b"x".to_vec()));
    for _ in 0..3 {
        assert_eq!(lexer.peek().expect("peek"), &Token::EOF);
    }
    assert_eq!(lexer.next().expect("next"), Token::EOF);
    assert_eq!(lexer.next().expect("next"), Token::EOF);
}

#[test]
fn comment_skipping_lexes_identically() {
    // "1 # c\n+ 2" lexes identically to "1\n+ 2"
    assert_eq!(lex_all("1 # c\n+ 2"), lex_all("1\n+ 2"));
}

#[test]
fn comment_at_end_of_input() {
    assert_eq!(lex_all("1 # trailing words"), lex_all("1"));
}

#[test]
fn punctuation_tokens() {
    assert_eq!(
        lex_all("( ) [ ] { } , + - * /"),
        vec![
            Token::LeftBracket,
            Token::RightBracket,
            Token::LeftSquare,
            Token::RightSquare,
            Token::LeftCurly,
            Token::RightCurly,
            Token::Comma,
            Token::Add,
            Token::Minus,
            Token::Mul,
            Token::Div,
            Token::EOF,
        ]
    );
}

#[test]
fn two_character_lookahead_tokens() {
    assert_eq!(
        lex_all("= == < <= > >="),
        vec![
            Token::Assign,
            Token::Equal,
            Token::LeftAngle,
            Token::LessEq,
            Token::RightAngle,
            Token::GreaEq,
            Token::EOF,
        ]
    );
    // the pushed-back byte is retokenized
    assert_eq!(lex_all("<3"), vec![
        Token::LeftAngle,
        Token::Number(b"3".to_vec()),
        Token::EOF,
    ]);
}

#[test]
fn keywords_and_identifiers() {
    assert_eq!(
        lex_all("def extern define f_1"),
        vec![
            Token::Def,
            Token::Extern,
            Token::Identifier(b"define".to_vec()),
            Token::Identifier(b"f_1".to_vec()),
            Token::EOF,
        ]
    );
}

#[test]
fn string_literals() {
    assert_eq!(lex_all("'ab' \"cd\""), vec![
        Token::String(b"ab".to_vec()),
        Token::String(b"cd".to_vec()),
        Token::EOF,
    ]);
}

#[test]
fn comment_marker_inside_string_is_text() {
    // the quote is claimed before the comment marker
    assert_eq!(lex_all("\"a#b\""), vec![Token::String(b"a#b".to_vec()), Token::EOF]);
}

#[test]
fn number_stops_at_identifier_byte() {
    assert_eq!(lex_all("1x"), vec![
        Token::Number(b"1".to_vec()),
        Token::Identifier(b"x".to_vec()),
        Token::EOF,
    ]);
}

#[test]
fn syn_err_wraps_a_message() {
    let r: Result<(), Error> = ParserError::syn_err("mismatched list");
    match r {
        Err(Error::ParserError(ParserError::SyntaxError(msg))) => {
            assert_eq!(msg, "mismatched list");
        },
        other => panic!("expected SyntaxError, got {:?}", other),
    }
}

#[test]
fn unclosed_string_fails() {
    let mut lexer = Lexer::new(b"\"ab\ncd\"".to_vec());
    match lexer.next() {
        Err(Error::LexError(LexError::UnclosedString)) => {},
        other => panic!("expected UnclosedString, got {:?}", other),
    }
}

#[test]
fn number_literals() {
    assert_eq!(
        lex_all("1 31337 4.0 1. .5"),
        vec![
            Token::Number(b"1".to_vec()),
            Token::Number(b"31337".to_vec()),
            Token::Number(b"4.0".to_vec()),
            Token::Number(b"1.".to_vec()),
            Token::Number(b".5".to_vec()),
            Token::EOF,
        ]
    );
}

#[test]
fn malformed_numbers_fail() {
    for bad in ["1.2.3", "1_0", "."] {
        let mut lexer = Lexer::new(bad.as_bytes().to_vec());
        match lexer.next() {
            Err(Error::LexError(LexError::ParseFloatError)) => {},
            other => panic!("expected ParseFloatError for {:?}, got {:?}", bad, other),
        }
    }
}

#[test]
fn lexing_continues_past_a_failed_token() {
    // a failed peek consumes the malformed token; the next read resumes
    // behind it
    let mut lexer = Lexer::new(b"1.2.3 x".to_vec());
    match lexer.peek() {
        Err(Error::LexError(LexError::ParseFloatError)) => {},
        other => panic!("expected ParseFloatError, got {:?}", other),
    }
    assert_eq!(lexer.next().expect("next"), Token::Identifier(b"x".to_vec()));
}

#[test]
fn lookahead_at_end_of_input() {
    // nothing follows the `=`, so there is nothing to push back
    assert_eq!(lex_all("="), vec![Token::Assign, Token::EOF]);
    assert_eq!(lex_all("<"), vec![Token::LeftAngle, Token::EOF]);
    assert_eq!(lex_all(">"), vec![Token::RightAngle, Token::EOF]);
}

#[test]
fn token_precedence_table() {
    assert_eq!(Token::LeftAngle.precedence(), 1);
    assert_eq!(Token::RightAngle.precedence(), 1);
    assert_eq!(Token::Add.precedence(), 5);
    assert_eq!(Token::Minus.precedence(), 5);
    assert_eq!(Token::Mul.precedence(), 10);
    assert_eq!(Token::Div.precedence(), 10);
    assert_eq!(Token::get_tok_prec(&Token::Comma), -1);
    assert_eq!(Token::get_tok_prec(&Token::EOF), -1);
}

#[test]
fn operator_conversion() {
    assert_eq!(OpSymbol::try_from(Token::Add), Ok(OpSymbol::Add));
    assert_eq!(OpSymbol::try_from(Token::Minus), Ok(OpSymbol::Sub));
    assert_eq!(OpSymbol::try_from(Token::Mul), Ok(OpSymbol::Mul));
    assert_eq!(OpSymbol::try_from(Token::Div), Ok(OpSymbol::Div));
    assert_eq!(OpSymbol::try_from(Token::LeftAngle), Ok(OpSymbol::Less));
    assert_eq!(OpSymbol::try_from(Token::RightAngle), Ok(OpSymbol::Greater));
    assert_eq!(
        OpSymbol::try_from(Token::Comma),
        Err(ParserError::ParseOpSymbolError(Token::Comma))
    );
}

#[test]
fn toplevel_wraps_anonymously() {
    // "4+5" yields a FunctionAst with an empty name and no parameters
    let mut parser = Parser::new(b"4+5".to_vec()).expect("lexing failed");
    let ast = parser.parse_toplevel().expect("parse failed");
    assert_eq!(ast.proto.name, b"".to_vec());
    assert!(ast.proto.args.is_empty());
    assert_eq!(ast.body, bin(OpSymbol::Add, num("4"), num("5")));
}

#[test]
fn prototype_parses() {
    let mut parser = Parser::new(b"extern foo(a b)".to_vec()).expect("lexing failed");
    let proto = parser.parse_extern().expect("parse failed");
    assert_eq!(proto.name, b"foo".to_vec());
    assert_eq!(proto.args, vec![b"a".to_vec(), b"b".to_vec()]);
}

#[test]
fn definition_parses() {
    let mut parser = Parser::new(b"def twice(x) x + x".to_vec()).expect("lexing failed");
    let ast = parser.parse_definition().expect("parse failed");
    assert_eq!(ast.proto.name, b"twice".to_vec());
    assert_eq!(ast.proto.args, vec![b"x".to_vec()]);
    assert_eq!(ast.body, bin(OpSymbol::Add, var("x"), var("x")));
}

#[test]
fn prototype_must_start_with_name() {
    let mut parser = Parser::new(b"def 1(a) 1".to_vec()).expect("lexing failed");
    match parser.parse_definition() {
        Err(Error::ParserError(ParserError::ExpectedFunctionName)) => {},
        other => panic!("expected ExpectedFunctionName, got {:?}", other),
    }
}

#[test]
fn prototype_requires_brackets() {
    let mut parser = Parser::new(b"def f a".to_vec()).expect("lexing failed");
    match parser.parse_definition() {
        Err(Error::ParserError(ParserError::SyntaxError(msg))) => {
            assert_eq!(msg, "Expected '(' in prototype");
        },
        other => panic!("expected SyntaxError, got {:?}", other),
    }
    let mut parser = Parser::new(b"def f(a 1".to_vec()).expect("lexing failed");
    match parser.parse_definition() {
        Err(Error::ParserError(ParserError::SyntaxError(msg))) => {
            assert_eq!(msg, "Expected ')' in prototype");
        },
        other => panic!("expected SyntaxError, got {:?}", other),
    }
}

#[test]
fn paren_expression_requires_close() {
    let mut parser = Parser::new(b"(1+2".to_vec()).expect("lexing failed");
    match parser.parse_expr() {
        Err(Error::ParserError(ParserError::SyntaxError(msg))) => {
            assert_eq!(msg, "Expects `)`");
        },
        other => panic!("expected SyntaxError, got {:?}", other),
    }
}

#[test]
fn argument_list_requires_separator() {
    let mut parser = Parser::new(b"f(1 2)".to_vec()).expect("lexing failed");
    match parser.parse_expr() {
        Err(Error::ParserError(ParserError::SyntaxError(msg))) => {
            assert_eq!(msg, "Expected ')' or ',' in argument list");
        },
        other => panic!("expected SyntaxError, got {:?}", other),
    }
}

#[test]
fn primary_rejects_stray_operator() {
    let mut parser = Parser::new(b"+ 1".to_vec()).expect("lexing failed");
    match parser.parse_expr() {
        Err(Error::ParserError(ParserError::UnexpectedToken(Token::Add))) => {},
        other => panic!("expected UnexpectedToken, got {:?}", other),
    }
    // the rejected lookahead is not consumed: it is still there, and a
    // second attempt fails the same way
    assert_eq!(parser.peek(), &Token::Add);
    match parser.parse_primary() {
        Err(Error::ParserError(ParserError::UnexpectedToken(Token::Add))) => {},
        other => panic!("expected UnexpectedToken, got {:?}", other),
    }
}

#[test]
fn parse_number_requires_a_number() {
    // the offending token is consumed, and the error names the expectation
    let mut parser = Parser::new(b"x 1".to_vec()).expect("lexing failed");
    match parser.parse_number() {
        Err(Error::ParserError(ParserError::SyntaxError(msg))) => {
            assert_eq!(msg, "Expects {Number}");
        },
        other => panic!("expected SyntaxError, got {:?}", other),
    }
    // the identifier was eaten; the number behind it parses
    assert_eq!(parser.parse_number().expect("parse failed"), num("1"));
}

#[test]
fn parse_identifier_requires_an_identifier() {
    let mut parser = Parser::new(b"1".to_vec()).expect("lexing failed");
    match parser.parse_identifier() {
        Err(Error::ParserError(ParserError::SyntaxError(msg))) => {
            assert_eq!(msg, "Expect `identifier`");
        },
        other => panic!("expected SyntaxError, got {:?}", other),
    }
}

#[test]
fn latin1_whitespace_is_skipped() {
    // 0xA0 (no-break space) and 0x85 (next line) are whitespace bytes
    let mut lexer = Lexer::new(vec![0xA0, b'1', 0x85, b'+']);
    assert_eq!(lexer.next().expect("next"), Token::Number(b"1".to_vec()));
    assert_eq!(lexer.next().expect("next"), Token::Add);
    assert_eq!(lexer.next().expect("next"), Token::EOF);
}

#[test]
fn latin1_letters_continue_identifiers() {
    // 0xC0 decodes to an accented letter and continues the identifier;
    // 0xD7 decodes to the multiplication sign and starts its own token
    let mut lexer = Lexer::new(vec![b'a', 0xC0, b' ', b'a', 0xD7]);
    assert_eq!(lexer.next().expect("next"), Token::Identifier(vec![b'a', 0xC0]));
    assert_eq!(lexer.next().expect("next"), Token::Identifier(b"a".to_vec()));
    assert_eq!(lexer.next().expect("next"), Token::Identifier(vec![0xD7]));
    assert_eq!(lexer.next().expect("next"), Token::EOF);
}
