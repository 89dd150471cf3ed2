use crate::grammar::operator_of;
use crate::token::Token;
use crate::value::Operator;
use vstd::prelude::*;

verus! {

/// The operator that an operator token stands for.
pub fn get_operator(token: &Token) -> (op: Operator)
    requires
        operator_of(token@) is Some,
    ensures
        Some(op) == operator_of(token@),
{
    match token {
        Token::Plus => Operator::Plus,
        Token::Minus => Operator::Minus,
        _ => Operator::Bang,
    }
}

} // verus!
