use sketchlang::ast::Ast;
use sketchlang::grammar::ParseError;
use sketchlang::lexer::{lex, TokenContentType, TokenType};
use sketchlang::parser::Parser;

fn parse(source: &str) -> Result<Vec<Ast>, ParseError> {
    Parser::new(lex(source).unwrap()).parse()
}

fn list(nodes: &[Ast]) -> String {
    let parts: Vec<String> = nodes.iter().map(show).collect();
    format!("[{}]", parts.join(" "))
}

fn show(node: &Ast) -> String {
    match node {
        Ast::Literal(l) => match &l.content {
            TokenContentType::String(s) => format!("'{}'", s),
            TokenContentType::Number(s) => s.clone(),
            TokenContentType::Boolean(b) => format!("{}", b),
        },
        Ast::Array(a) => format!("(array {})", list(&a.content)),
        Ast::Var(name, None) => name.clone(),
        Ast::Var(name, Some(e)) => format!("(bind {} {})", name, show(e)),
        Ast::Binary(l, op, r) => format!("({:?} {} {})", op, show(l), show(r)),
        Ast::Func(name, params, body) => format!("(func {} ({}) {})", name, params.join(" "), list(body)),
        Ast::Return(e) => format!("(return {})", show(e)),
        Ast::For(id, range, body) => format!("(for {} {} {})", id, list(range), list(body)),
        Ast::While(c, body) => format!("(while {} {})", show(c), list(body)),
        Ast::Conditional(c, body, rest) => format!("(if {} {} {})", show(c), list(body), list(rest)),
        Ast::SetField(var, field, e) => format!("(set {} {} {})", var, field, show(e)),
        Ast::Struct(name, fields) => format!("(record {} ({}))", name, fields.join(" ")),
        Ast::Instance(name, members) => {
            let parts: Vec<String> =
                members.iter().map(|(f, e)| format!("{}:{}", f, show(e))).collect();
            format!("(new {} ({}))", name, parts.join(" "))
        }
        Ast::Call(callee, args) => format!("(call {} {})", show(callee), list(args)),
        Ast::Get(target, key, is_expr) => format!("(get {} {} {})", show(target), show(key), is_expr),
        Ast::PointGet(target, field) => format!("(dot {} {})", show(target), field),
        Ast::Unary(op, e) => format!("({:?} {})", op, show(e)),
        Ast::Nothing => "nothing".to_string(),
    }
}

fn shown(source: &str) -> String {
    list(&parse(source).unwrap())
}

fn holds_nothing(node: &Ast) -> bool {
    let any = |nodes: &Vec<Ast>| nodes.iter().any(holds_nothing);
    match node {
        Ast::Nothing => true,
        Ast::Literal(_) | Ast::Struct(_, _) => false,
        Ast::Array(a) => any(&a.content),
        Ast::Var(_, init) => init.as_ref().map_or(false, |e| holds_nothing(e)),
        Ast::Binary(l, _, r) => holds_nothing(l) || holds_nothing(r),
        Ast::Func(_, _, body) => any(body),
        Ast::Return(e) | Ast::Unary(_, e) | Ast::SetField(_, _, e) | Ast::PointGet(e, _) => {
            holds_nothing(e)
        }
        Ast::For(_, range, body) => any(range) || any(body),
        Ast::While(c, body) => holds_nothing(c) || any(body),
        Ast::Conditional(c, body, rest) => holds_nothing(c) || any(body) || any(rest),
        Ast::Instance(_, members) => members.iter().any(|(_, e)| holds_nothing(e)),
        Ast::Call(callee, args) => holds_nothing(callee) || any(args),
        Ast::Get(target, key, _) => holds_nothing(target) || holds_nothing(key),
    }
}

#[test]
fn multiplication_binds_tighter_than_addition() {
    assert_eq!(shown("2 + 3 * 4"), "[(Plus 2 (Asterisk 3 4))]");
    assert_eq!(shown("2 * 3 + 4"), "[(Plus (Asterisk 2 3) 4)]");
}

#[test]
fn operators_of_one_precedence_group_to_the_left() {
    assert_eq!(shown("10 - 4 - 3"), "[(Minus (Minus 10 4) 3)]");
    assert_eq!(shown("1 - 2 + 3 - 4"), "[(Minus (Plus (Minus 1 2) 3) 4)]");
    assert_eq!(shown("8 / 4 * 2"), "[(Asterisk (Slash 8 4) 2)]");
    assert_eq!(shown("1 * 2 - 3"), "[(Minus (Asterisk 1 2) 3)]");
    assert_eq!(shown("1 - 2 * 3 - 4"), "[(Minus (Minus 1 (Asterisk 2 3)) 4)]");
}

#[test]
fn comparison_and_logic_bind_loosest() {
    assert_eq!(shown("a + 1 < b * 2"), "[(Lt (Plus a 1) (Asterisk b 2))]");
    assert_eq!(shown("a == b && c"), "[(And (Equiv a b) c)]");
    assert_eq!(shown("i < 10 && go"), "[(And (Lt i 10) go)]");
    assert_eq!(shown("a || b + 1 == c"), "[(Equiv (Or a (Plus b 1)) c)]");
}

#[test]
fn a_parenthesized_operand_stays_whole() {
    assert_eq!(shown("2 * (3 + 4)"), "[(Asterisk 2 (Plus 3 4))]");
    assert_eq!(shown("(2 + 3) * 4"), "[(Asterisk (Plus 2 3) 4)]");
    assert_eq!(shown("10 - (4 - 3)"), "[(Minus 10 (Minus 4 3))]");
    assert_eq!(shown("(a < b) == (c < d)"), "[(Equiv (Lt a b) (Lt c d))]");
}

#[test]
fn literals_names_and_arrays() {
    assert_eq!(shown("'a' 1.5 true x"), "['a' 1.5 true x]");
    assert_eq!(shown("[]"), "[(array [])]");
    assert_eq!(shown("[1, x, 'b']"), "[(array [1 x 'b'])]");
}

#[test]
fn a_line_end_does_not_end_a_statement() {
    assert_eq!(shown("x\n[0]"), "[(get x 0 true)]");
    assert_eq!(shown("f\n(1)\n.g"), "[(dot (call f [1]) g)]");
    assert_eq!(shown("1\n+ 2"), "[(Plus 1 2)]");
}

#[test]
fn negation_nests() {
    assert_eq!(shown("!!a"), "[(Not (Not a))]");
    assert_eq!(shown("!a == b"), "[(Equiv (Not a) b)]");
}

#[test]
fn postfix_chains() {
    assert_eq!(shown("f(1)(2)"), "[(call (call f [1]) [2])]");
    assert_eq!(shown("a[0].b(c, d)"), "[(call (dot (get a 0 true) b) [c d])]");
    assert_eq!(shown("a.push(x)"), "[(call (dot a push) [x])]");
    assert_eq!(shown("f()"), "[(call f [])]");
}

#[test]
fn bindings_and_field_assignments() {
    assert_eq!(shown("prepare x as 1 + 2"), "[(bind x (Plus 1 2))]");
    assert_eq!(shown("prepare p.x as 10"), "[(set p x 10)]");
}

#[test]
fn functions_with_and_without_parameters() {
    assert_eq!(
        shown("sketch max needs (a, b) { if (a > b) { finished a } finished b }"),
        "[(func max (a b) [(if (Gt a b) [(return a)] []) (return b)])]"
    );
    assert_eq!(shown("sketch f { }"), "[(func f () [])]");
}

#[test]
fn loops() {
    assert_eq!(
        shown("loop i through (0, 5) { prepare s as s + i }"),
        "[(for i [0 5] [(bind s (Plus s i))])]"
    );
    assert_eq!(shown("while (x < 3) { f(x) }"), "[(while (Lt x 3) [(call f [x])])]");
}

#[test]
fn conditional_chain_nests_each_clause_in_the_one_before() {
    assert_eq!(
        shown("if (a) { 1 } elif (b) { 2 } else { 3 }"),
        "[(if a [1] [(if b [2] [(if true [3] [])])])]"
    );
    assert_eq!(shown("if (a) { } else { 1 }"), "[(if a [] [(if true [1] [])])]");
    assert_eq!(shown("if (a) { } x"), "[(if a [] []) x]");
}

#[test]
fn record_declarations_and_constructions() {
    assert_eq!(shown("brush P has { x, y }"), "[(record P (x y))]");
    assert_eq!(shown("prepare p as prep P(x: 1, y: 2 + 3)"), "[(bind p (new P (x:1 y:(Plus 2 3))))]");
}

#[test]
fn record_construction_is_an_expression_but_starts_no_statement() {
    assert_eq!(shown("f(prep P())"), "[(call f [(new P ())])]");
    assert_eq!(parse("prep P()").err(), Some(ParseError::UnexpectedKeyword { index: 0 }));
}

#[test]
fn parsed_trees_hold_no_absent_value() {
    let sources = [
        "prepare x as 2 + 3 * 4",
        "sketch f needs (a) { while (a) { a.pop() } finished [a, f(a)] }",
        "brush P has { x }\nprepare p as prep P(x: [1, 2][0])\nprepare p.x as !true",
        "loop i through (0, 3) { if (i == 1) { print(i) } elif (i) { } else { } }",
    ];
    for source in sources {
        for node in parse(source).unwrap() {
            assert!(!holds_nothing(&node));
        }
    }
}

#[test]
fn an_empty_program_has_no_statements() {
    assert_eq!(shown(""), "[]");
    assert_eq!(shown("~ nothing here"), "[]");
}

#[test]
fn missing_punctuation_fails() {
    assert_eq!(
        parse("f(1").err(),
        Some(ParseError::Expected { expected: TokenType::RightParen, index: 3 })
    );
    assert_eq!(
        parse("[1, 2").err(),
        Some(ParseError::Expected { expected: TokenType::RightBracket, index: 4 })
    );
    assert_eq!(
        parse("while x { }").err(),
        Some(ParseError::Expected { expected: TokenType::LeftParen, index: 1 })
    );
    assert_eq!(
        parse("prepare 1 as 2").err(),
        Some(ParseError::Expected { expected: TokenType::Identifier, index: 1 })
    );
    assert_eq!(
        parse("prep P(x 1)").err().map(|e| matches!(e, ParseError::UnexpectedKeyword { .. })),
        Some(true)
    );
    assert_eq!(
        parse("f(prep P(x 1))").err(),
        Some(ParseError::Expected { expected: TokenType::Colon, index: 6 })
    );
}

#[test]
fn missing_keyword_fails() {
    assert_eq!(parse("prepare x 1").err(), Some(ParseError::ExpectedKeyword { index: 2 }));
    assert_eq!(parse("loop i (0, 1) { }").err(), Some(ParseError::ExpectedKeyword { index: 2 }));
    assert_eq!(parse("brush P { x }").err(), Some(ParseError::ExpectedKeyword { index: 2 }));
}

#[test]
fn stray_tokens_fail() {
    assert_eq!(parse(")").err(), Some(ParseError::UnexpectedToken { index: 0 }));
    assert_eq!(parse("1 +").err(), Some(ParseError::UnexpectedToken { index: 2 }));
    assert_eq!(parse("x +  * 2").err(), Some(ParseError::UnexpectedToken { index: 2 }));
    assert_eq!(parse("else { }").err(), Some(ParseError::UnexpectedKeyword { index: 0 }));
    assert_eq!(parse("f(while)").err(), Some(ParseError::UnexpectedKeyword { index: 2 }));
}

#[test]
fn a_block_needs_its_closing_brace() {
    assert_eq!(parse("sketch f { x").err(), Some(ParseError::UnexpectedToken { index: 4 }));
}

#[test]
fn a_range_has_two_bounds() {
    assert_eq!(parse("loop i through (0) { }").err(), Some(ParseError::RangeArity { index: 5 }));
    assert_eq!(
        parse("loop i through (0, 1, 2) { }").err(),
        Some(ParseError::RangeArity { index: 9 })
    );
}

#[test]
fn a_stream_without_end_token_ends_where_a_token_is_needed() {
    let mut tokens = lex("f(").unwrap();
    tokens.pop();
    let mut parser = Parser::new(tokens);
    assert_eq!(parser.parse().err(), Some(ParseError::UnexpectedEnd { index: 2 }));
    let mut tokens = lex("x").unwrap();
    tokens.pop();
    let mut parser = Parser::new(tokens);
    assert_eq!(parser.expr().err(), Some(ParseError::UnexpectedEnd { index: 1 }));
}

#[test]
fn parser_methods_read_from_the_current_position() {
    let mut parser = Parser::new(lex("a, b + 1 prepare").unwrap());
    let token = parser.eat(TokenType::Identifier).unwrap();
    assert_eq!(token.value, "a");
    assert_eq!(
        parser.eat(TokenType::Identifier).err(),
        Some(ParseError::Expected { expected: TokenType::Identifier, index: 1 })
    );
    assert_eq!(parser.current, 1);
    parser.eat(TokenType::Comma).unwrap();
    assert_eq!(show(&parser.expr().unwrap()), "(Plus b 1)");
    assert_eq!(parser.current, 5);
    assert_eq!(parser.stmt().err(), Some(ParseError::Expected { expected: TokenType::Identifier, index: 6 }));
}

#[test]
fn simple_and_expression_lists() {
    let mut parser = Parser::new(lex("(1 + 2) x, y z").unwrap());
    assert_eq!(show(&parser.simple().unwrap()), "(Plus 1 2)");
    let exprs = parser.exprList().unwrap();
    assert_eq!(list(&exprs), "[x y]");
    assert_eq!(show(&parser.stmt().unwrap()), "z");
}

#[test]
fn parse_adds_to_the_statements_it_holds() {
    let mut parser = Parser::new(lex("a b").unwrap());
    let first = parser.parse().unwrap();
    assert_eq!(list(&first), "[a b]");
    assert_eq!(list(&parser.ast), "[a b]");
    assert_eq!(list(&parser.parse().unwrap()), "[a b]");
}
