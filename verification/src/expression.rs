use crate::ast::{contents, AstNode};
use crate::value::Operator;
use vstd::prelude::*;

verus! {

/// An expression of the language.
#[derive(PartialEq, Debug)]
pub enum Expression {
    /// A unary operator applied to an operand.
    Unary(Unary),
    /// The declaration of a variable, which starts out as `Nil`.
    Variable(String),
    /// Gives a variable of the current scope a value, declaring it there if
    /// the scope does not hold it yet.
    Assignment(Assignment),
    /// A placeholder for an expression that is not there. The parser gives
    /// none, and the evaluator faults on it.
    Null,
    /// Reads a variable.
    Identifier(String),
}

/// An assignment: the name and the right side.
#[derive(PartialEq, Debug)]
pub struct Assignment {
    pub identifier: String,
    pub value: Box<AstNode>,
}

/// A unary operator and its operand.
#[derive(PartialEq, Debug)]
pub struct Unary {
    pub op: Operator,
    pub child: Box<AstNode>,
}

/// A sequence of statements with a scope of its own.
#[derive(PartialEq, Debug)]
pub struct Block {
    pub stmts: Vec<Box<AstNode>>,
}

/// A print statement and its expression.
#[derive(PartialEq, Debug)]
pub struct Print {
    pub expr: Box<AstNode>,
}

impl Clone for Assignment {
    fn clone(&self) -> (copy: Self)
        ensures
            copy.identifier@ == self.identifier@,
            (*copy.value)@ == (*self.value)@,
    {
        Assignment { identifier: self.identifier.clone(), value: Box::new((*self.value).clone()) }
    }
}

impl Clone for Unary {
    fn clone(&self) -> (copy: Self)
        ensures
            copy.op == self.op,
            (*copy.child)@ == (*self.child)@,
    {
        Unary { op: self.op, child: Box::new((*self.child).clone()) }
    }
}

impl Clone for Block {
    fn clone(&self) -> (copy: Self)
        ensures
            contents(copy.stmts@) == contents(self.stmts@),
    {
        let mut stmts: Vec<Box<AstNode>> = Vec::new();
        let mut i: usize = 0;
        while i < self.stmts.len()
            invariant
                i <= self.stmts.len(),
                stmts.len() == i,
                forall|k: int| 0 <= k < i ==> (*stmts@[k])@ == (*self.stmts@[k])@,
            decreases self.stmts.len() - i,
        {
            stmts.push(Box::new((*self.stmts[i]).clone()));
            i += 1;
        }
        Block { stmts }
    }
}

impl Clone for Print {
    fn clone(&self) -> (copy: Self)
        ensures
            (*copy.expr)@ == (*self.expr)@,
    {
        Print { expr: Box::new((*self.expr).clone()) }
    }
}

impl Clone for Expression {
    fn clone(&self) -> (copy: Self)
        ensures
            AstNode::Expression(copy)@ == AstNode::Expression(*self)@,
    {
        match self {
            Expression::Unary(unary) => Expression::Unary(unary.clone()),
            Expression::Variable(name) => Expression::Variable(name.clone()),
            Expression::Assignment(assignment) => Expression::Assignment(assignment.clone()),
            Expression::Null => Expression::Null,
            Expression::Identifier(name) => Expression::Identifier(name.clone()),
        }
    }
}

} // verus!
