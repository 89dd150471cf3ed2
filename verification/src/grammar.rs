use crate::ast::NodeView;
use crate::error::{Failure, Rule};
use crate::lexer::{lemma_tokens_well_formed, lex};
use crate::token::{TokenView, Tokens};
use crate::value::{Operator, ValueView};
use vstd::prelude::*;

verus! {

/// What parsing one production from some token on gives: the node and the
/// index of the first token after it, or the failure.
pub type Parse = Result<(NodeView, int), Failure>;

/// The operator that a token stands for.
pub open spec fn operator_of(token: TokenView) -> Option<Operator> {
    match token {
        TokenView::Plus => Some(Operator::Plus),
        TokenView::Minus => Some(Operator::Minus),
        TokenView::Bang => Some(Operator::Bang),
        _ => None,
    }
}

/// The value that a literal token stands for.
pub open spec fn literal_of(token: TokenView) -> Option<ValueView> {
    match token {
        TokenView::Integer(n) => Some(ValueView::Int(n)),
        TokenView::Str(s) => Some(ValueView::Str(s)),
        TokenView::Boolean(b) => Some(ValueView::Boolean(b)),
        _ => None,
    }
}

/// Whether a statement can start with the token: every token but `=` and
/// `}` starts one.
pub open spec fn starts_statement(token: TokenView) -> bool {
    !(token is Assign) && !(token is RightBrace)
}

/// `Literal := Integer | Str | Boolean`
pub open spec fn literal(tokens: Tokens, at: int) -> Parse {
    match tokens.token(at) {
        Some(token) => match literal_of(token) {
            Some(value) => Ok((NodeView::Literal(value), at + 1)),
            None => Err(tokens.failure(Rule::Literal, at)),
        },
        None => Err(tokens.failure(Rule::Literal, at)),
    }
}

/// `Unary := ("+" | "-" | "!") Literal`
pub open spec fn unary(tokens: Tokens, at: int) -> Parse {
    match tokens.token(at) {
        Some(token) => match operator_of(token) {
            Some(op) => match literal(tokens, at + 1) {
                Ok((operand, next)) => Ok((NodeView::Unary(op, Box::new(operand)), next)),
                Err(failure) => Err(failure),
            },
            None => Err(tokens.failure(Rule::Unary, at)),
        },
        None => Err(tokens.failure(Rule::Unary, at)),
    }
}

/// An identifier that stands as an expression.
pub open spec fn identifier(tokens: Tokens, at: int) -> Parse {
    match tokens.token(at) {
        Some(TokenView::Identifier(name)) => Ok((NodeView::Identifier(name), at + 1)),
        _ => Err(tokens.failure(Rule::Identifier, at)),
    }
}

/// `Variable := "var" Identifier`
pub open spec fn variable(tokens: Tokens, at: int) -> Parse {
    match tokens.token(at) {
        Some(TokenView::Var) => match tokens.token(at + 1) {
            Some(TokenView::Identifier(name)) => Ok((NodeView::Variable(name), at + 2)),
            _ => Err(tokens.failure(Rule::Identifier, at + 1)),
        },
        _ => Err(tokens.failure(Rule::Variable, at)),
    }
}

/// `Expr := Unary | Literal | Identifier | Block`, which the first token
/// tells apart.
pub open spec fn expression(tokens: Tokens, at: int) -> Parse
    decreases tokens.lexemes.len() - at, 1int,
{
    match tokens.token(at) {
        Some(TokenView::Plus) | Some(TokenView::Minus) | Some(TokenView::Bang) => unary(tokens, at),
        Some(TokenView::Integer(_)) | Some(TokenView::Str(_)) | Some(TokenView::Boolean(_)) => {
            literal(tokens, at)
        },
        Some(TokenView::Identifier(_)) => identifier(tokens, at),
        Some(TokenView::LeftBrace) => block(tokens, at),
        _ => Err(tokens.failure(Rule::Expr, at)),
    }
}

/// `Block := "{" Statement* "}"`
pub open spec fn block(tokens: Tokens, at: int) -> Parse
    decreases tokens.lexemes.len() - at, 0int,
{
    match tokens.token(at) {
        Some(TokenView::LeftBrace) => match statements(tokens, at + 1) {
            Ok((stmts, next)) => if tokens.token(next) == Some(TokenView::RightBrace) {
                Ok((NodeView::Block(stmts), next + 1))
            } else {
                Err(tokens.failure(Rule::Block, next))
            },
            Err(failure) => Err(failure),
        },
        _ => Err(tokens.failure(Rule::Block, at)),
    }
}

/// `Statement*`: statements one after the other, as long as the next token
/// starts one.
pub open spec fn statements(tokens: Tokens, at: int) -> Result<(Seq<NodeView>, int), Failure>
    decreases tokens.lexemes.len() - at, 4int,
{
    match tokens.token(at) {
        Some(token) if starts_statement(token) => match statement(tokens, at) {
            Ok((first, next)) => if at < next <= tokens.lexemes.len() {
                match statements(tokens, next) {
                    Ok((rest, end)) => Ok((seq![first] + rest, end)),
                    Err(failure) => Err(failure),
                }
            } else {
                // Not the case: a statement holds a token (`lemma_statement_advances`).
                Err(tokens.failure(Rule::Statement, at))
            },
            Err(failure) => Err(failure),
        },
        _ => Ok((Seq::empty(), at)),
    }
}

/// `Print := "print" Expr`
pub open spec fn print(tokens: Tokens, at: int) -> Parse
    decreases tokens.lexemes.len() - at, 2int,
{
    match tokens.token(at) {
        Some(TokenView::Print) => match expression(tokens, at + 1) {
            Ok((expr, next)) => Ok((NodeView::Print(Box::new(expr)), next)),
            Err(failure) => Err(failure),
        },
        _ => Err(tokens.failure(Rule::Print, at)),
    }
}

/// `Assignment := "let" Identifier "=" Expr` and
/// `ReAssign := Identifier "=" Expr`, which give the same node.
pub open spec fn assignment(tokens: Tokens, at: int) -> Parse
    decreases tokens.lexemes.len() - at, 2int,
{
    let declares = tokens.token(at) == Some(TokenView::Let);
    let rule = if declares {
        Rule::Assignment
    } else {
        Rule::ReAssign
    };
    let start = if declares {
        at + 1
    } else {
        at
    };
    match tokens.token(start) {
        Some(TokenView::Identifier(name)) => if tokens.token(start + 1) == Some(TokenView::Assign) {
            match expression(tokens, start + 2) {
                Ok((value, next)) => Ok((NodeView::Assignment(name, Box::new(value)), next)),
                Err(failure) => Err(failure),
            }
        } else {
            Err(tokens.failure(rule, start + 1))
        },
        _ => Err(tokens.failure(Rule::Identifier, start)),
    }
}

/// `Statement := Print | Variable | ReAssign | Assignment | Expr`
///
/// The first token decides, but for an identifier: it starts a `ReAssign`
/// where `=` follows it, and is an expression by itself where not.
pub open spec fn statement(tokens: Tokens, at: int) -> Parse
    decreases tokens.lexemes.len() - at, 3int,
{
    match tokens.token(at) {
        Some(TokenView::Print) => print(tokens, at),
        Some(TokenView::Var) => variable(tokens, at),
        Some(TokenView::Let) => assignment(tokens, at),
        Some(TokenView::Identifier(_)) if tokens.token(at + 1) == Some(TokenView::Assign) => {
            assignment(tokens, at)
        },
        _ => expression(tokens, at),
    }
}

/// `Program := Statement* EOF`
pub open spec fn program(tokens: Tokens) -> Result<Seq<NodeView>, Failure> {
    match statements(tokens, 0) {
        Ok((stmts, next)) => if next == tokens.lexemes.len() {
            Ok(stmts)
        } else {
            Err(tokens.failure(Rule::Statement, next))
        },
        Err(failure) => Err(failure),
    }
}

/// The nodes of a text: those of the program that its tokens are.
pub open spec fn parse(text: Seq<char>) -> Result<Seq<NodeView>, Failure> {
    match lex(text) {
        Ok(tokens) => program(tokens),
        Err(failure) => Err(failure),
    }
}

/// An expression holds at least one token and ends inside the tokens.
pub proof fn lemma_expression_advances(tokens: Tokens, at: int)
    ensures
        expression(tokens, at) matches Ok((_, next)) ==> at < next <= tokens.lexemes.len(),
    decreases tokens.lexemes.len() - at, 1int,
{
    if tokens.token(at) == Some(TokenView::LeftBrace) {
        lemma_block_advances(tokens, at);
    }
}

/// A block holds at least its two braces and ends inside the tokens.
pub proof fn lemma_block_advances(tokens: Tokens, at: int)
    ensures
        block(tokens, at) matches Ok((_, next)) ==> at + 1 < next <= tokens.lexemes.len(),
    decreases tokens.lexemes.len() - at, 0int,
{
    if tokens.token(at) == Some(TokenView::LeftBrace) {
        lemma_statements_advance(tokens, at + 1);
    }
}

/// Statements in a row end at or after their start and inside the tokens.
pub proof fn lemma_statements_advance(tokens: Tokens, at: int)
    ensures
        statements(tokens, at) matches Ok((_, next)) ==> at <= next && (0 <= at
            <= tokens.lexemes.len() ==> next <= tokens.lexemes.len()),
    decreases tokens.lexemes.len() - at, 4int,
{
    if let Some(token) = tokens.token(at) {
        if starts_statement(token) {
            if let Ok((_, next)) = statement(tokens, at) {
                if at < next <= tokens.lexemes.len() {
                    lemma_statements_advance(tokens, next);
                }
            }
        }
    }
}

/// A statement holds at least one token and ends inside the tokens.
pub proof fn lemma_statement_advances(tokens: Tokens, at: int)
    ensures
        statement(tokens, at) matches Ok((_, next)) ==> at < next <= tokens.lexemes.len(),
    decreases tokens.lexemes.len() - at, 3int,
{
    lemma_expression_advances(tokens, at);
    lemma_expression_advances(tokens, at + 1);
    lemma_expression_advances(tokens, at + 2);
    lemma_expression_advances(tokens, at + 3);
}

impl Tokens {
    /// Whether every token is well formed, as those of a text are.
    pub open spec fn well_formed(self) -> bool {
        forall|i: int|
            0 <= i < self.lexemes.len() ==> (#[trigger] self.lexemes[i]).token.well_formed()
    }
}

impl NodeView {
    /// Whether a node can stand where the grammar asks for an expression.
    pub open spec fn is_expression(self) -> bool {
        self is Unary || self is Literal || self is Identifier || self is Block
    }

    /// Whether a node is one that the grammar can give. The value of a
    /// literal is a string, a boolean or an integer that is not negative.
    /// The operand of a unary operator is a literal. What is printed or
    /// assigned is an expression. No node is a placeholder.
    pub open spec fn grammatical(self) -> bool
        decreases self,
    {
        match self {
            NodeView::Literal(value) => match value {
                ValueView::Str(_) => true,
                ValueView::Boolean(_) => true,
                ValueView::Int(n) => n >= 0,
                _ => false,
            },
            NodeView::Unary(_, operand) => *operand is Literal && operand.grammatical(),
            NodeView::Identifier(_) => true,
            NodeView::Variable(_) => true,
            NodeView::Assignment(_, value) => value.is_expression() && value.grammatical(),
            NodeView::Print(expr) => expr.is_expression() && expr.grammatical(),
            NodeView::Block(stmts) => forall|i: int|
                0 <= i < stmts.len() ==> (#[trigger] stmts[i]).grammatical(),
            NodeView::Null => false,
        }
    }
}

/// The expression that well-formed tokens give is grammatical.
pub proof fn lemma_expression_grammatical(tokens: Tokens, at: int)
    requires
        tokens.well_formed(),
    ensures
        expression(tokens, at) matches Ok((node, _)) ==> node.is_expression() && node.grammatical(),
    decreases tokens.lexemes.len() - at, 1int,
{
    reveal_with_fuel(NodeView::grammatical, 2);
    if tokens.token(at) == Some(TokenView::LeftBrace) {
        lemma_statements_grammatical(tokens, at + 1);
    }
}

/// The statements that well-formed tokens give are grammatical.
pub proof fn lemma_statements_grammatical(tokens: Tokens, at: int)
    requires
        tokens.well_formed(),
    ensures
        statements(tokens, at) matches Ok((nodes, _)) ==> forall|i: int|
            0 <= i < nodes.len() ==> (#[trigger] nodes[i]).grammatical(),
    decreases tokens.lexemes.len() - at, 4int,
{
    if let Some(token) = tokens.token(at) {
        if starts_statement(token) {
            lemma_statement_grammatical(tokens, at);
            if let Ok((_, next)) = statement(tokens, at) {
                if at < next <= tokens.lexemes.len() {
                    lemma_statements_grammatical(tokens, next);
                }
            }
        }
    }
}

/// The statement that well-formed tokens give is grammatical.
pub proof fn lemma_statement_grammatical(tokens: Tokens, at: int)
    requires
        tokens.well_formed(),
    ensures
        statement(tokens, at) matches Ok((node, _)) ==> node.grammatical(),
    decreases tokens.lexemes.len() - at, 3int,
{
    lemma_expression_grammatical(tokens, at);
    if 0 <= at < tokens.lexemes.len() {
        lemma_expression_grammatical(tokens, at + 1);
        if at + 1 < tokens.lexemes.len() {
            lemma_expression_grammatical(tokens, at + 2);
            if at + 2 < tokens.lexemes.len() {
                lemma_expression_grammatical(tokens, at + 3);
            }
        }
    }
}

/// Every node that parsing a text gives is grammatical.
pub proof fn law_parse_is_grammatical(text: Seq<char>)
    ensures
        parse(text) matches Ok(nodes) ==> forall|i: int|
            0 <= i < nodes.len() ==> (#[trigger] nodes[i]).grammatical(),
{
    lemma_tokens_well_formed(text, 0);
    if let Ok(tokens) = lex(text) {
        lemma_statements_grammatical(tokens, 0);
    }
}

} // verus!
