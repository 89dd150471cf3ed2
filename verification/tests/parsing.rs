use conway::token::{Lexeme, Token, TokenStream};
use conway::parser::{
    assignment_parser, block_parser, boolean_parser, build_ast_from_expr, build_ast_from_literal,
    build_ast_from_statement, build_ast_from_unary, identifier_parser, number_parser, print_parser,
    string_parser, unary_parser, variable_parser,
};
use conway::utils::get_operator;
use conway::{
    parser, Assignment, AstNode, Block, ConwayParser, Expression, Operator, ParseError, Print, Rule,
    Unary, Value,
};

fn literal(value: Value) -> AstNode {
    AstNode::Literal(value)
}

fn number(n: i32) -> AstNode {
    literal(Value::Int(n))
}

fn unary(op: Operator, child: AstNode) -> AstNode {
    AstNode::Expression(Expression::Unary(Unary { op, child: Box::new(child) }))
}

fn variable(name: &str) -> AstNode {
    AstNode::Expression(Expression::Variable(name.to_string()))
}

fn identifier(name: &str) -> AstNode {
    AstNode::Expression(Expression::Identifier(name.to_string()))
}

fn assignment(name: &str, value: AstNode) -> AstNode {
    AstNode::Expression(Expression::Assignment(Assignment {
        identifier: name.to_string(),
        value: Box::new(value),
    }))
}

fn print(expr: AstNode) -> AstNode {
    AstNode::Print(Print { expr: Box::new(expr) })
}

fn block(stmts: Vec<AstNode>) -> AstNode {
    AstNode::Block(Block { stmts: stmts.into_iter().map(Box::new).collect() })
}

fn error(rule: Rule, position: usize) -> Result<Vec<AstNode>, ParseError> {
    Err(ParseError { rule, position })
}

fn tokens(source: &str) -> Vec<(Token, usize)> {
    ConwayParser::tokenize(source)
        .unwrap()
        .lexemes
        .into_iter()
        .map(|Lexeme { token, position }| (token, position))
        .collect()
}

#[test]
fn the_empty_text_is_the_empty_program() {
    assert_eq!(parser(""), Ok(vec![]));
    assert_eq!(parser("  \n\t \r\n"), Ok(vec![]));
}

#[test]
fn literals() {
    assert_eq!(parser("true"), Ok(vec![literal(Value::Boolean(true))]));
    assert_eq!(parser("false"), Ok(vec![literal(Value::Boolean(false))]));
    assert_eq!(parser("1285"), Ok(vec![number(1285)]));
    assert_eq!(parser("0"), Ok(vec![number(0)]));
    assert_eq!(parser("007"), Ok(vec![number(7)]));
    assert_eq!(parser("2147483647"), Ok(vec![number(i32::MAX)]));
    assert_eq!(parser("\"hello world\""), Ok(vec![literal(Value::Str("hello world".to_string()))]));
    assert_eq!(parser("\"\""), Ok(vec![literal(Value::Str(String::new()))]));
}

#[test]
fn a_string_holds_what_stands_between_its_quotes() {
    assert_eq!(
        parser("\"var x = {1}\n\""),
        Ok(vec![literal(Value::Str("var x = {1}\n".to_string()))])
    );
    assert_eq!(parser("\"é∀\""), Ok(vec![literal(Value::Str("é∀".to_string()))]));
}

#[test]
fn unary_expressions() {
    assert_eq!(parser("!true"), Ok(vec![unary(Operator::Bang, literal(Value::Boolean(true)))]));
    assert_eq!(parser("-41"), Ok(vec![unary(Operator::Minus, number(41))]));
    assert_eq!(parser("+ 5"), Ok(vec![unary(Operator::Plus, number(5))]));
    assert_eq!(
        parser("-\"s\""),
        Ok(vec![unary(Operator::Minus, literal(Value::Str("s".to_string())))])
    );
}

#[test]
fn declarations_and_assignments() {
    assert_eq!(parser("var a"), Ok(vec![variable("a")]));
    assert_eq!(parser("let a = 10"), Ok(vec![assignment("a", number(10))]));
    assert_eq!(parser("a = 4"), Ok(vec![assignment("a", number(4))]));
    assert_eq!(parser("a=b"), Ok(vec![assignment("a", identifier("b"))]));
    assert_eq!(parser("let a = -1"), Ok(vec![assignment("a", unary(Operator::Minus, number(1)))]));
    assert_eq!(parser("let a = { 1 }"), Ok(vec![assignment("a", block(vec![number(1)]))]));
}

#[test]
fn identifiers() {
    assert_eq!(parser("a"), Ok(vec![identifier("a")]));
    assert_eq!(parser("_x1"), Ok(vec![identifier("_x1")]));
    assert_eq!(parser("Camel_Case9"), Ok(vec![identifier("Camel_Case9")]));
}

#[test]
fn a_word_that_only_starts_like_a_keyword_is_an_identifier() {
    assert_eq!(parser("variable"), Ok(vec![identifier("variable")]));
    assert_eq!(parser("printer"), Ok(vec![identifier("printer")]));
    assert_eq!(parser("letter = 1"), Ok(vec![assignment("letter", number(1))]));
    assert_eq!(parser("truest"), Ok(vec![identifier("truest")]));
    assert_eq!(parser("false_"), Ok(vec![identifier("false_")]));
    assert_eq!(parser("True"), Ok(vec![identifier("True")]));
    assert_eq!(parser("var1"), Ok(vec![identifier("var1")]));
}

#[test]
fn print_statements() {
    assert_eq!(parser("print 1"), Ok(vec![print(number(1))]));
    assert_eq!(parser("print a"), Ok(vec![print(identifier("a"))]));
    assert_eq!(
        parser("print !false"),
        Ok(vec![print(unary(Operator::Bang, literal(Value::Boolean(false))))])
    );
    assert_eq!(parser("print { }"), Ok(vec![print(block(vec![]))]));
}

#[test]
fn blocks() {
    assert_eq!(parser("{}"), Ok(vec![block(vec![])]));
    assert_eq!(parser("{ 1 }"), Ok(vec![block(vec![number(1)])]));
    assert_eq!(
        parser("{ var a a = 2 print a }"),
        Ok(vec![block(vec![variable("a"), assignment("a", number(2)), print(identifier("a"))])])
    );
    assert_eq!(
        parser("{ { } { { 1 } } }"),
        Ok(vec![block(vec![block(vec![]), block(vec![block(vec![number(1)])])])])
    );
}

#[test]
fn statements_follow_each_other_in_the_order_of_the_text() {
    assert_eq!(
        parser("let a = 6\n \n            a = 4\n            \n\n            a"),
        Ok(vec![assignment("a", number(6)), assignment("a", number(4)), identifier("a")])
    );
    assert_eq!(parser("1 2 3"), Ok(vec![number(1), number(2), number(3)]));
    assert_eq!(parser("1+2"), Ok(vec![number(1), unary(Operator::Plus, number(2))]));
    assert_eq!(parser("a a = 1"), Ok(vec![identifier("a"), assignment("a", number(1))]));
    assert_eq!(parser("12ab"), Ok(vec![number(12), identifier("ab")]));
    assert_eq!(parser("{}{}"), Ok(vec![block(vec![]), block(vec![])]));
}

#[test]
fn tokens_and_their_positions() {
    assert_eq!(
        tokens("let a = 10"),
        vec![
            (Token::Let, 0),
            (Token::Identifier("a".to_string()), 4),
            (Token::Assign, 6),
            (Token::Integer(10), 8),
        ]
    );
    assert_eq!(
        tokens(" print{var x}+-!\"s\" true false"),
        vec![
            (Token::Print, 1),
            (Token::LeftBrace, 6),
            (Token::Var, 7),
            (Token::Identifier("x".to_string()), 11),
            (Token::RightBrace, 12),
            (Token::Plus, 13),
            (Token::Minus, 14),
            (Token::Bang, 15),
            (Token::Str("s".to_string()), 16),
            (Token::Boolean(true), 20),
            (Token::Boolean(false), 25),
        ]
    );
    assert_eq!(ConwayParser::tokenize("ab ").unwrap().end, 3);
    assert_eq!(ConwayParser::tokenize("").unwrap().end, 0);
}

#[test]
fn positions_count_characters() {
    assert_eq!(
        tokens("\"é∀\" x"),
        vec![(Token::Str("é∀".to_string()), 0), (Token::Identifier("x".to_string()), 5)]
    );
    assert_eq!(parser("\"é∀\" ="), error(Rule::Statement, 5));
}

#[test]
fn a_character_that_starts_no_token_fails() {
    assert_eq!(parser("#"), error(Rule::Statement, 0));
    assert_eq!(parser("a = 1 ; b"), error(Rule::Statement, 6));
    assert_eq!(parser("1 * 2"), error(Rule::Statement, 2));
    assert_eq!(parser("é"), error(Rule::Statement, 0));
    assert_eq!(parser("(1)"), error(Rule::Statement, 0));
}

#[test]
fn an_integer_that_does_not_fit_fails() {
    assert_eq!(parser("2147483648"), error(Rule::Integer, 0));
    assert_eq!(parser("x = 99999999999999999999999999"), error(Rule::Integer, 4));
    assert_eq!(parser("-2147483648"), error(Rule::Integer, 1));
}

#[test]
fn a_string_without_its_closing_quote_fails() {
    assert_eq!(parser("\"abc"), error(Rule::Str, 0));
    assert_eq!(parser("a = \""), error(Rule::Str, 4));
}

#[test]
fn a_token_that_starts_no_statement_fails() {
    assert_eq!(parser("= 1"), error(Rule::Statement, 0));
    assert_eq!(parser("}"), error(Rule::Statement, 0));
    assert_eq!(parser("a = 1 = 2"), error(Rule::Statement, 6));
    assert_eq!(parser("{ } }"), error(Rule::Statement, 4));
}

#[test]
fn a_missing_expression_fails() {
    assert_eq!(parser("print"), error(Rule::Expr, 5));
    assert_eq!(parser("print var"), error(Rule::Expr, 6));
    assert_eq!(parser("a ="), error(Rule::Expr, 3));
    assert_eq!(parser("a = = 1"), error(Rule::Expr, 4));
    assert_eq!(parser("let a = }"), error(Rule::Expr, 8));
    assert_eq!(parser("let a = let"), error(Rule::Expr, 8));
}

#[test]
fn a_missing_identifier_fails() {
    assert_eq!(parser("var"), error(Rule::Identifier, 3));
    assert_eq!(parser("var 1"), error(Rule::Identifier, 4));
    assert_eq!(parser("var var"), error(Rule::Identifier, 4));
    assert_eq!(parser("let = 1"), error(Rule::Identifier, 4));
    assert_eq!(parser("let true = 1"), error(Rule::Identifier, 4));
    assert_eq!(parser("let"), error(Rule::Identifier, 3));
}

#[test]
fn a_missing_equals_sign_fails() {
    assert_eq!(parser("let a 1"), error(Rule::Assignment, 6));
    assert_eq!(parser("let a"), error(Rule::Assignment, 5));
}

#[test]
fn an_operator_without_a_literal_fails() {
    assert_eq!(parser("-"), error(Rule::Literal, 1));
    assert_eq!(parser("- a"), error(Rule::Literal, 2));
    assert_eq!(parser("!!true"), error(Rule::Literal, 1));
    assert_eq!(parser("-{1}"), error(Rule::Literal, 1));
}

#[test]
fn a_block_that_is_not_closed_fails() {
    assert_eq!(parser("{"), error(Rule::Block, 1));
    assert_eq!(parser("{ 1 2"), error(Rule::Block, 5));
    assert_eq!(parser("{ { }"), error(Rule::Block, 5));
    assert_eq!(parser("{ a = 1 = }"), error(Rule::Block, 8));
}

#[test]
fn the_first_failure_ends_the_parse() {
    assert_eq!(parser("var 1 var 2"), error(Rule::Identifier, 4));
    assert_eq!(parser("{ print } #"), error(Rule::Statement, 10));
    assert_eq!(parser("{ print }"), error(Rule::Expr, 8));
}

fn stream(source: &str) -> TokenStream {
    ConwayParser::tokenize(source).unwrap()
}

fn failure(rule: Rule, position: usize) -> Result<(AstNode, usize), ParseError> {
    Err(ParseError { rule, position })
}

#[test]
fn nodes_of_single_tokens() {
    assert_eq!(boolean_parser(&Token::Boolean(true)), literal(Value::Boolean(true)));
    assert_eq!(boolean_parser(&Token::Boolean(false)), literal(Value::Boolean(false)));
    assert_eq!(string_parser(&Token::Str("s".to_string())), literal(Value::Str("s".to_string())));
    assert_eq!(number_parser(&Token::Integer(12)), number(12));
    assert_eq!(unary_parser(&Token::Minus, number(1)), unary(Operator::Minus, number(1)));
    assert_eq!(unary_parser(&Token::Plus, number(1)), unary(Operator::Plus, number(1)));
    assert_eq!(unary_parser(&Token::Bang, number(1)), unary(Operator::Bang, number(1)));
}

#[test]
fn operators_of_tokens() {
    assert_eq!(get_operator(&Token::Plus), Operator::Plus);
    assert_eq!(get_operator(&Token::Minus), Operator::Minus);
    assert_eq!(get_operator(&Token::Bang), Operator::Bang);
}

#[test]
fn each_production_from_a_token_on() {
    let tokens = stream("print 1 var a let b = 2 c = 3 -4 { 5 } d");
    assert_eq!(print_parser(&tokens, 0), Ok((print(number(1)), 2)));
    assert_eq!(variable_parser(&tokens, 2), Ok((variable("a"), 4)));
    assert_eq!(assignment_parser(&tokens, 4), Ok((assignment("b", number(2)), 8)));
    assert_eq!(assignment_parser(&tokens, 8), Ok((assignment("c", number(3)), 11)));
    assert_eq!(build_ast_from_unary(&tokens, 11), Ok((unary(Operator::Minus, number(4)), 13)));
    assert_eq!(build_ast_from_literal(&tokens, 12), Ok((number(4), 13)));
    assert_eq!(block_parser(&tokens, 13), Ok((block(vec![number(5)]), 16)));
    assert_eq!(identifier_parser(&tokens, 16), Ok((identifier("d"), 17)));
    assert_eq!(build_ast_from_expr(&tokens, 13), Ok((block(vec![number(5)]), 16)));
    assert_eq!(build_ast_from_expr(&tokens, 5), Ok((identifier("b"), 6)));
    assert_eq!(build_ast_from_statement(&tokens, 0), Ok((print(number(1)), 2)));
    assert_eq!(build_ast_from_statement(&tokens, 5), Ok((assignment("b", number(2)), 8)));
    assert_eq!(build_ast_from_statement(&tokens, 16), Ok((identifier("d"), 17)));
}

#[test]
fn each_production_fails_on_another_first_token() {
    let tokens = stream("a = 1");
    assert_eq!(print_parser(&tokens, 0), failure(Rule::Print, 0));
    assert_eq!(variable_parser(&tokens, 0), failure(Rule::Variable, 0));
    assert_eq!(build_ast_from_unary(&tokens, 0), failure(Rule::Unary, 0));
    assert_eq!(build_ast_from_literal(&tokens, 0), failure(Rule::Literal, 0));
    assert_eq!(block_parser(&tokens, 0), failure(Rule::Block, 0));
    assert_eq!(identifier_parser(&tokens, 1), failure(Rule::Identifier, 2));
    assert_eq!(build_ast_from_expr(&tokens, 1), failure(Rule::Expr, 2));
    assert_eq!(build_ast_from_statement(&tokens, 1), failure(Rule::Expr, 2));
    assert_eq!(assignment_parser(&tokens, 1), failure(Rule::Identifier, 2));
    assert_eq!(assignment_parser(&tokens, 2), failure(Rule::Identifier, 4));
    let tokens = stream("a 1");
    assert_eq!(assignment_parser(&tokens, 0), failure(Rule::ReAssign, 2));
}

#[test]
fn each_production_fails_past_the_last_token() {
    let tokens = stream("a = 1");
    for at in [3, 4, 100, usize::MAX] {
        assert_eq!(print_parser(&tokens, at), failure(Rule::Print, 5));
        assert_eq!(variable_parser(&tokens, at), failure(Rule::Variable, 5));
        assert_eq!(assignment_parser(&tokens, at), failure(Rule::Identifier, 5));
        assert_eq!(build_ast_from_unary(&tokens, at), failure(Rule::Unary, 5));
        assert_eq!(build_ast_from_literal(&tokens, at), failure(Rule::Literal, 5));
        assert_eq!(block_parser(&tokens, at), failure(Rule::Block, 5));
        assert_eq!(identifier_parser(&tokens, at), failure(Rule::Identifier, 5));
        assert_eq!(build_ast_from_expr(&tokens, at), failure(Rule::Expr, 5));
        assert_eq!(build_ast_from_statement(&tokens, at), failure(Rule::Expr, 5));
    }
}

#[test]
fn the_text_that_spells_a_program_is_parsed_back() {
    let nodes = vec![
        assignment("a", number(6)),
        variable("b"),
        print(unary(Operator::Bang, literal(Value::Boolean(true)))),
        block(vec![identifier("a"), block(vec![]), literal(Value::Str("s t".to_string()))]),
        identifier("b"),
    ];
    let text = "let a = 6 var b print ! true { a { } \"s t\" } b ";
    assert_eq!(parser(text), Ok(nodes));
}

#[test]
fn clones_of_nodes_are_equal() {
    let node = block(vec![
        assignment("a", unary(Operator::Minus, number(6))),
        print(identifier("a")),
        variable("b"),
        block(vec![literal(Value::Str("s".to_string())), AstNode::Expression(Expression::Null)]),
    ]);
    assert_eq!(node.clone(), node);
    let expression = Expression::Assignment(Assignment {
        identifier: "a".to_string(),
        value: Box::new(number(1)),
    });
    assert_eq!(expression.clone(), expression);
    let print = Print { expr: Box::new(number(1)) };
    assert_eq!(print.clone(), print);
    let unary = Unary { op: Operator::Bang, child: Box::new(number(1)) };
    assert_eq!(unary.clone(), unary);
    let block = Block { stmts: vec![Box::new(number(1)), Box::new(number(2))] };
    assert_eq!(block.clone(), block);
}
