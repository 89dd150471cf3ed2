use crate::decimal::{decimal_digits, decimal_text};
use vstd::prelude::*;
use vstd::string::StringExecFns;

verus! {

/// The productions of the grammar that can fail to match.
#[derive(PartialEq, Eq, Debug, Clone, Copy)]
pub enum Rule {
    Statement,
    Print,
    Variable,
    Assignment,
    ReAssign,
    Expr,
    Unary,
    Literal,
    Integer,
    Str,
    Identifier,
    Block,
}

/// Why a text is no program: the production that found no match, and the
/// index of the character at which it was tried.
#[derive(PartialEq, Eq, Debug, Clone, Copy)]
pub struct ParseError {
    pub rule: Rule,
    pub position: usize,
}

/// The mathematical content of a [`ParseError`].
pub struct Failure {
    pub rule: Rule,
    pub position: int,
}

impl View for ParseError {
    type V = Failure;

    open spec fn view(&self) -> Failure {
        Failure { rule: self.rule, position: self.position as int }
    }
}

impl Rule {
    /// The name of the production.
    pub open spec fn name(self) -> Seq<char> {
        match self {
            Rule::Statement => "Statement"@,
            Rule::Print => "Print"@,
            Rule::Variable => "Variable"@,
            Rule::Assignment => "Assignment"@,
            Rule::ReAssign => "ReAssign"@,
            Rule::Expr => "Expr"@,
            Rule::Unary => "Unary"@,
            Rule::Literal => "Literal"@,
            Rule::Integer => "Integer"@,
            Rule::Str => "Str"@,
            Rule::Identifier => "Identifier"@,
            Rule::Block => "Block"@,
        }
    }

    /// The name of the production.
    pub fn to_text(&self) -> (text: &'static str)
        ensures
            text@ == self.name(),
    {
        match self {
            Rule::Statement => "Statement",
            Rule::Print => "Print",
            Rule::Variable => "Variable",
            Rule::Assignment => "Assignment",
            Rule::ReAssign => "ReAssign",
            Rule::Expr => "Expr",
            Rule::Unary => "Unary",
            Rule::Literal => "Literal",
            Rule::Integer => "Integer",
            Rule::Str => "Str",
            Rule::Identifier => "Identifier",
            Rule::Block => "Block",
        }
    }
}

impl Failure {
    /// The message of a failure: the production that was expected, and
    /// where.
    pub open spec fn text(self) -> Seq<char> {
        "expected "@ + self.rule.name() + " at position "@ + decimal_digits(self.position as nat)
    }
}

impl ParseError {
    /// The message of the error.
    pub fn to_text(&self) -> (text: String)
        ensures
            text@ == self@.text(),
    {
        let position = decimal_text(self.position as u64);
        let text = String::from_str("expected ").concat(self.rule.to_text()).concat(
            " at position ",
        ).concat(position.as_str());
        text
    }
}

} // verus!
