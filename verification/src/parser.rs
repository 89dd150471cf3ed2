use crate::ast::{contents, views, AstNode, NodeView};
use crate::error::{Failure, ParseError, Rule};
use crate::expression::{Assignment, Block, Expression, Print, Unary};
use crate::grammar::{
    assignment, block, expression, identifier, lemma_statement_advances, literal, operator_of,
    parse, print, starts_statement, statement, statements, unary, variable, Parse,
};
use crate::lexer::{collect_chars, lex, read_token, scan, tokens_from, CharClass};
use crate::token::{Lexeme, LexemeView, Token, TokenStream, TokenView, Tokens};
use crate::utils::get_operator;
use crate::value::{Value, ValueView};
use vstd::prelude::*;

verus! {

/// The first stage of parsing: it finds the tokens of a text.
pub struct ConwayParser;

/// Some lexemes in front of what reading the rest of a text gives.
pub open spec fn lexemes_then(
    front: Seq<LexemeView>,
    rest: Result<Seq<LexemeView>, Failure>,
) -> Result<Seq<LexemeView>, Failure> {
    match rest {
        Ok(lexemes) => Ok(front + lexemes),
        Err(failure) => Err(failure),
    }
}

impl ConwayParser {
    /// Splits a text into its tokens. Spaces, tabs and line ends separate
    /// tokens and are otherwise skipped.
    pub fn tokenize(source: &str) -> (result: Result<TokenStream, ParseError>)
        ensures
            match result {
                Ok(stream) => lex(source@) == Ok::<_, Failure>(stream@),
                Err(error) => lex(source@) == Err::<Tokens, _>(error@),
            },
    {
        let text = collect_chars(source);
        let ascii = source.is_ascii();
        let mut lexemes: Vec<Lexeme> = Vec::new();
        let mut i: usize = 0;
        assert(lexemes@.map_values(|lexeme: Lexeme| lexeme@) + tokens_from(text@, 0)->Ok_0
            =~= tokens_from(text@, 0)->Ok_0);
        loop
            invariant
                text@ == source@,
                ascii ==> source.is_ascii(),
                i <= text.len(),
                tokens_from(text@, 0) == lexemes_then(
                    lexemes@.map_values(|lexeme: Lexeme| lexeme@),
                    tokens_from(text@, i as int),
                ),
            decreases text.len() - i,
        {
            let ghost front = lexemes@.map_values(|lexeme: Lexeme| lexeme@);
            let at = scan(&text, i, CharClass::Space);
            if at >= text.len() {
                assert(front + Seq::<LexemeView>::empty() =~= front);
                return Ok(TokenStream { lexemes, end: text.len() });
            }
            match read_token(source, &text, ascii, at) {
                Err(error) => {
                    return Err(error);
                },
                Ok((token, end)) => {
                    let ghost lexeme = LexemeView { token: token@, position: at as int };
                    lexemes.push(Lexeme { token, position: at });
                    assert(lexemes@.map_values(|lexeme: Lexeme| lexeme@) =~= front.push(lexeme));
                    assert forall|rest: Seq<LexemeView>|
                        front + (seq![lexeme] + rest) == front.push(lexeme) + rest by {
                        assert(front + (seq![lexeme] + rest) =~= front.push(lexeme) + rest);
                    }
                    i = end;
                },
            }
        }
    }
}

/// What a parsing function hands back, by its views.
pub open spec fn parsed(result: Result<(AstNode, usize), ParseError>) -> Parse {
    match result {
        Ok((node, next)) => Ok((node@, next as int)),
        Err(error) => Err(error@),
    }
}

/// The node of a boolean literal.
pub fn boolean_parser(token: &Token) -> (node: AstNode)
    requires
        token is Boolean,
    ensures
        node@ == NodeView::Literal(ValueView::Boolean(token->Boolean_0)),
{
    match token {
        Token::Boolean(value) => AstNode::Literal(Value::Boolean(*value)),
        _ => vstd::pervasive::unreached(),
    }
}

/// The node of a string literal.
pub fn string_parser(token: &Token) -> (node: AstNode)
    requires
        token is Str,
    ensures
        node@ == NodeView::Literal(ValueView::Str(token->Str_0@)),
{
    match token {
        Token::Str(value) => AstNode::Literal(Value::Str(value.clone())),
        _ => vstd::pervasive::unreached(),
    }
}

/// The node of an integer literal.
pub fn number_parser(token: &Token) -> (node: AstNode)
    requires
        token is Integer,
    ensures
        node@ == NodeView::Literal(ValueView::Int(token->Integer_0)),
{
    match token {
        Token::Integer(value) => AstNode::Literal(Value::Int(*value)),
        _ => vstd::pervasive::unreached(),
    }
}

/// The node of an operator applied to an operand.
pub fn unary_parser(token: &Token, child: AstNode) -> (node: AstNode)
    requires
        operator_of(token@) is Some,
    ensures
        node@ == NodeView::Unary(operator_of(token@)->0, Box::new(child@)),
{
    let op = get_operator(token);
    AstNode::Expression(Expression::Unary(Unary { op, child: Box::new(child) }))
}

/// Parses an identifier that stands as an expression.
pub fn identifier_parser(stream: &TokenStream, at: usize) -> (result: Result<
    (AstNode, usize),
    ParseError,
>)
    ensures
        parsed(result) == identifier(stream@, at as int),
{
    match stream.token(at) {
        Some(Token::Identifier(name)) => Ok(
            (AstNode::Expression(Expression::Identifier(name.clone())), at + 1),
        ),
        _ => Err(stream.failure(Rule::Identifier, at)),
    }
}

/// Parses the declaration of a variable.
pub fn variable_parser(stream: &TokenStream, at: usize) -> (result: Result<
    (AstNode, usize),
    ParseError,
>)
    ensures
        parsed(result) == variable(stream@, at as int),
{
    match stream.token(at) {
        Some(Token::Var) => match stream.token(at + 1) {
            Some(Token::Identifier(name)) => Ok(
                (AstNode::Expression(Expression::Variable(name.clone())), at + 2),
            ),
            _ => Err(stream.failure(Rule::Identifier, at + 1)),
        },
        _ => Err(stream.failure(Rule::Variable, at)),
    }
}

/// Parses a literal at the token at `at`.
pub fn build_ast_from_literal(stream: &TokenStream, at: usize) -> (result: Result<
    (AstNode, usize),
    ParseError,
>)
    ensures
        parsed(result) == literal(stream@, at as int),
{
    match stream.token(at) {
        Some(token) => match token {
            Token::Str(_) => Ok((string_parser(token), at + 1)),
            Token::Integer(_) => Ok((number_parser(token), at + 1)),
            Token::Boolean(_) => Ok((boolean_parser(token), at + 1)),
            _ => Err(stream.failure(Rule::Literal, at)),
        },
        None => Err(stream.failure(Rule::Literal, at)),
    }
}

/// Parses a unary expression whose operator is the token at `at`.
pub fn build_ast_from_unary(stream: &TokenStream, at: usize) -> (result: Result<
    (AstNode, usize),
    ParseError,
>)
    ensures
        parsed(result) == unary(stream@, at as int),
{
    match stream.token(at) {
        Some(operator) => match operator {
            Token::Plus | Token::Minus | Token::Bang => {
                match build_ast_from_literal(stream, at + 1) {
                    Ok((child, next)) => Ok((unary_parser(operator, child), next)),
                    Err(error) => Err(error),
                }
            },
            _ => Err(stream.failure(Rule::Unary, at)),
        },
        None => Err(stream.failure(Rule::Unary, at)),
    }
}

/// Whether a statement can start with the token.
pub fn begins_statement(token: &Token) -> (yes: bool)
    ensures
        yes == starts_statement(token@),
{
    match token {
        Token::Assign | Token::RightBrace => false,
        _ => true,
    }
}

/// Some nodes in front of what parsing the statements that follow gives.
pub open spec fn nodes_then(
    front: Seq<NodeView>,
    rest: Result<(Seq<NodeView>, int), Failure>,
) -> Result<(Seq<NodeView>, int), Failure> {
    match rest {
        Ok((nodes, end)) => Ok((front + nodes, end)),
        Err(failure) => Err(failure),
    }
}

/// Parses a block: a left brace, statements, and a right brace.
pub fn block_parser(stream: &TokenStream, at: usize) -> (result: Result<
    (AstNode, usize),
    ParseError,
>)
    ensures
        parsed(result) == block(stream@, at as int),
    decreases stream.lexemes.len() - at, 0int,
{
    match stream.token(at) {
        Some(Token::LeftBrace) => {},
        _ => {
            return Err(stream.failure(Rule::Block, at));
        },
    }
    let mut stmts: Vec<Box<AstNode>> = Vec::new();
    let mut i = at + 1;
    assert(contents(stmts@) + statements(stream@, i as int)->Ok_0.0 =~= statements(
        stream@,
        i as int,
    )->Ok_0.0);
    loop
        invariant
            at < i <= stream.lexemes.len(),
            stream@.token(at as int) == Some(TokenView::LeftBrace),
            statements(stream@, at + 1) == nodes_then(
                contents(stmts@),
                statements(stream@, i as int),
            ),
        decreases stream.lexemes.len() - i,
    {
        let ghost front = contents(stmts@);
        let more = match stream.token(i) {
            Some(token) => begins_statement(token),
            None => false,
        };
        if !more {
            assert(front + Seq::<NodeView>::empty() =~= front);
            return match stream.token(i) {
                Some(Token::RightBrace) => {
                    let node = AstNode::Block(Block { stmts });
                    assert(node@->Block_0 =~= front);
                    Ok((node, i + 1))
                },
                _ => Err(stream.failure(Rule::Block, i)),
            };
        }
        match build_ast_from_statement(stream, i) {
            Err(error) => {
                return Err(error);
            },
            Ok((node, next)) => {
                proof {
                    lemma_statement_advances(stream@, i as int);
                }
                let ghost first = node@;
                stmts.push(Box::new(node));
                assert(contents(stmts@) =~= front.push(first));
                assert forall|rest: Seq<NodeView>|
                    front + (seq![first] + rest) == front.push(first) + rest by {
                    assert(front + (seq![first] + rest) =~= front.push(first) + rest);
                }
                i = next;
            },
        }
    }
}

/// Parses an expression: a unary expression, a literal, an identifier or a
/// block.
pub fn build_ast_from_expr(stream: &TokenStream, at: usize) -> (result: Result<
    (AstNode, usize),
    ParseError,
>)
    ensures
        parsed(result) == expression(stream@, at as int),
    decreases stream.lexemes.len() - at, 1int,
{
    match stream.token(at) {
        Some(token) => match token {
            Token::Plus | Token::Minus | Token::Bang => build_ast_from_unary(stream, at),
            Token::Integer(_) | Token::Str(_) | Token::Boolean(_) => build_ast_from_literal(
                stream,
                at,
            ),
            Token::Identifier(_) => identifier_parser(stream, at),
            Token::LeftBrace => block_parser(stream, at),
            _ => Err(stream.failure(Rule::Expr, at)),
        },
        None => Err(stream.failure(Rule::Expr, at)),
    }
}

/// Parses a print statement.
pub fn print_parser(stream: &TokenStream, at: usize) -> (result: Result<
    (AstNode, usize),
    ParseError,
>)
    ensures
        parsed(result) == print(stream@, at as int),
    decreases stream.lexemes.len() - at, 2int,
{
    match stream.token(at) {
        Some(Token::Print) => match build_ast_from_expr(stream, at + 1) {
            Ok((expr, next)) => Ok((AstNode::Print(Print { expr: Box::new(expr) }), next)),
            Err(error) => Err(error),
        },
        _ => Err(stream.failure(Rule::Print, at)),
    }
}

/// Parses an assignment, with `let` in front of it or without.
pub fn assignment_parser(stream: &TokenStream, at: usize) -> (result: Result<
    (AstNode, usize),
    ParseError,
>)
    ensures
        parsed(result) == assignment(stream@, at as int),
    decreases stream.lexemes.len() - at, 2int,
{
    let (rule, start) = match stream.token(at) {
        Some(Token::Let) => (Rule::Assignment, at + 1),
        _ => (Rule::ReAssign, at),
    };
    let identifier = match stream.token(start) {
        Some(Token::Identifier(name)) => name.clone(),
        _ => {
            return Err(stream.failure(Rule::Identifier, start));
        },
    };
    match stream.token(start + 1) {
        Some(Token::Assign) => {},
        _ => {
            return Err(stream.failure(rule, start + 1));
        },
    }
    match build_ast_from_expr(stream, start + 2) {
        Ok((value, next)) => Ok(
            (
                AstNode::Expression(
                    Expression::Assignment(Assignment { identifier, value: Box::new(value) }),
                ),
                next,
            ),
        ),
        Err(error) => Err(error),
    }
}

/// Parses a statement.
pub fn build_ast_from_statement(stream: &TokenStream, at: usize) -> (result: Result<
    (AstNode, usize),
    ParseError,
>)
    ensures
        parsed(result) == statement(stream@, at as int),
    decreases stream.lexemes.len() - at, 3int,
{
    match stream.token(at) {
        Some(Token::Print) => print_parser(stream, at),
        Some(Token::Var) => variable_parser(stream, at),
        Some(Token::Let) => assignment_parser(stream, at),
        Some(Token::Identifier(_)) => match stream.token(at + 1) {
            Some(Token::Assign) => assignment_parser(stream, at),
            _ => build_ast_from_expr(stream, at),
        },
        _ => build_ast_from_expr(stream, at),
    }
}

/// The nodes that a parse gives, by their views.
pub open spec fn parsed_nodes(result: Result<Vec<AstNode>, ParseError>) -> Result<
    Seq<NodeView>,
    Failure,
> {
    match result {
        Ok(nodes) => Ok(views(nodes@)),
        Err(error) => Err(error@),
    }
}

/// Parses a text: one node for each statement, in the order of the text.
/// The first thing in the text that the grammar does not allow fails the
/// whole parse.
pub fn parser(source: &str) -> (result: Result<Vec<AstNode>, ParseError>)
    ensures
        parsed_nodes(result) == parse(source@),
{
    let stream = match ConwayParser::tokenize(source) {
        Ok(stream) => stream,
        Err(error) => {
            return Err(error);
        },
    };
    let mut ast: Vec<AstNode> = Vec::new();
    let mut i: usize = 0;
    assert(views(ast@) + statements(stream@, 0)->Ok_0.0 =~= statements(stream@, 0)->Ok_0.0);
    loop
        invariant
            i <= stream.lexemes.len(),
            lex(source@) == Ok::<_, Failure>(stream@),
            statements(stream@, 0) == nodes_then(views(ast@), statements(stream@, i as int)),
        decreases stream.lexemes.len() - i,
    {
        let ghost front = views(ast@);
        let more = match stream.token(i) {
            Some(token) => begins_statement(token),
            None => false,
        };
        if !more {
            assert(front + Seq::<NodeView>::empty() =~= front);
            return if i == stream.lexemes.len() {
                Ok(ast)
            } else {
                Err(stream.failure(Rule::Statement, i))
            };
        }
        match build_ast_from_statement(&stream, i) {
            Err(error) => {
                return Err(error);
            },
            Ok((node, next)) => {
                proof {
                    lemma_statement_advances(stream@, i as int);
                }
                let ghost first = node@;
                ast.push(node);
                assert(views(ast@) =~= front.push(first));
                assert forall|rest: Seq<NodeView>|
                    front + (seq![first] + rest) == front.push(first) + rest by {
                    assert(front + (seq![first] + rest) =~= front.push(first) + rest);
                }
                i = next;
            },
        }
    }
}

} // verus!
