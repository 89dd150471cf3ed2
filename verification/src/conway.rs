use crate::ast::{views, NodeView};
use crate::error::ParseError;
use crate::grammar::{law_parse_is_grammatical, parse};
use crate::interpreter::{
    law_grammatical_program_faults, transcript, value_views, Interpreter, Report, RuntimeFault,
};
use crate::parser::parser;
use vstd::prelude::*;

verus! {

/// The language as a whole: from a text to the values of its statements.
pub struct Conway {}

impl Conway {
    /// Parses a text and evaluates its statements in order in the scopes of
    /// `interpreter`, up to the first fault. The scopes are those that the
    /// texts before left, and are left for the texts to come: what one text
    /// binds, the next one reads. A text that is no program gives the parse
    /// error; nothing is evaluated, and the interpreter stays as it was.
    ///
    /// The one fault that a text can lead to is an operator before a
    /// literal of the wrong kind, as in `-true`: what the parser gives
    /// holds no placeholder, and no integer whose negation overflows.
    pub fn interpret(&self, interpreter: &mut Interpreter, input: &str) -> (result: Result<
        Report,
        ParseError,
    >)
        ensures
            match result {
                Ok(report) => parse(input@) matches Ok(nodes) && {
                    let outcome = transcript(old(interpreter).env@, nodes);
                    &&& value_views(report.values@) == outcome.values
                    &&& report.fault == outcome.fault
                    &&& final(interpreter).env@ == outcome.scopes
                    &&& report.fault matches Some(fault) ==> fault == RuntimeFault::OperandMismatch
                },
                Err(error) => {
                    &&& parse(input@) == Err::<Seq<NodeView>, _>(error@)
                    &&& *final(interpreter) == *old(interpreter)
                },
            },
    {
        match parser(input) {
            Ok(nodes) => {
                proof {
                    law_parse_is_grammatical(input@);
                    law_grammatical_program_faults(interpreter.env@, views(nodes@));
                }
                Ok(interpreter.eval_all(&nodes))
            },
            Err(error) => Err(error),
        }
    }
}

} // verus!
