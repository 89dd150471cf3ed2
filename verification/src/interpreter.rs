use crate::ast::{contents, views, AstNode, NodeView};
use crate::environment::{Environment, Scopes};
use crate::expression::{Assignment, Block, Expression, Print, Unary};
use crate::value::{Operator, Value, ValueView};
use std::ops::{Neg, Not};
use vstd::prelude::*;

verus! {

/// Why an evaluation stopped without a value. No evaluation goes on after a
/// fault.
#[derive(PartialEq, Eq, Debug, Clone, Copy)]
pub enum RuntimeFault {
    /// An operator met a value of a kind that it is not defined for.
    OperandMismatch,
    /// The negation of an integer does not fit in 32 bits.
    Overflow,
    /// The tree holds a placeholder where an expression should stand.
    Placeholder,
}

/// What an evaluation leaves behind: the scopes as they are afterwards, and
/// the value or the fault.
pub struct Outcome {
    pub scopes: Scopes,
    pub result: Result<ValueView, RuntimeFault>,
}

/// A unary operator applied to a value: `Plus` hands any value back, `Minus`
/// negates an integer, `Bang` negates a boolean.
pub open spec fn apply(op: Operator, operand: ValueView) -> Result<ValueView, RuntimeFault> {
    match op {
        Operator::Plus => Ok(operand),
        Operator::Minus => match operand {
            ValueView::Int(n) => if n == i32::MIN {
                Err(RuntimeFault::Overflow)
            } else {
                Ok(ValueView::Int((-n) as i32))
            },
            _ => Err(RuntimeFault::OperandMismatch),
        },
        Operator::Bang => match operand {
            ValueView::Boolean(b) => Ok(ValueView::Boolean(!b)),
            _ => Err(RuntimeFault::OperandMismatch),
        },
    }
}

/// The meaning of a node: what evaluating it in `scopes` leaves behind.
pub open spec fn evaluate(scopes: Scopes, node: NodeView) -> Outcome
    decreases node,
{
    match node {
        NodeView::Literal(value) => Outcome { scopes, result: Ok(value) },
        NodeView::Identifier(name) => Outcome { scopes, result: Ok(scopes.lookup(name)) },
        NodeView::Variable(name) => Outcome {
            scopes: scopes.define(name, ValueView::Nil),
            result: Ok(ValueView::Nil),
        },
        NodeView::Assignment(name, value) => {
            let inner = evaluate(scopes, *value);
            match inner.result {
                Ok(v) => Outcome { scopes: inner.scopes.define(name, v), result: Ok(v) },
                Err(_) => inner,
            }
        },
        NodeView::Unary(op, child) => {
            let inner = evaluate(scopes, *child);
            match inner.result {
                Ok(v) => Outcome { scopes: inner.scopes, result: apply(op, v) },
                Err(_) => inner,
            }
        },
        NodeView::Print(expr) => evaluate(scopes, *expr),
        NodeView::Block(stmts) => {
            let inner = run(scopes.enter(), stmts, ValueView::Nil);
            Outcome { scopes: inner.scopes.outer(), result: inner.result }
        },
        NodeView::Null => Outcome { scopes, result: Err(RuntimeFault::Placeholder) },
    }
}

/// The meaning of statements in a row: each is evaluated in the scopes that
/// the one before left, up to the first fault. The value is that of the last
/// statement, and `last` where there is none.
pub open spec fn run(scopes: Scopes, stmts: Seq<NodeView>, last: ValueView) -> Outcome
    decreases stmts,
{
    if stmts.len() == 0 {
        Outcome { scopes, result: Ok(last) }
    } else {
        let first = evaluate(scopes, stmts.first());
        match first.result {
            Ok(v) => run(first.scopes, stmts.drop_first(), v),
            Err(_) => first,
        }
    }
}

/// What evaluating the statements of a program one after the other leaves
/// behind: the scopes afterwards, the values of the statements that were
/// evaluated, and the fault that ended the evaluation, if one did.
pub struct Transcript {
    pub scopes: Scopes,
    pub values: Seq<ValueView>,
    pub fault: Option<RuntimeFault>,
}

/// The meaning of a program: each statement is evaluated in the scopes that
/// the one before left, and gives a value, up to the first fault.
pub open spec fn transcript(scopes: Scopes, nodes: Seq<NodeView>) -> Transcript
    decreases nodes.len(),
{
    if nodes.len() == 0 {
        Transcript { scopes, values: Seq::empty(), fault: None }
    } else {
        let first = evaluate(scopes, nodes.first());
        match first.result {
            Ok(v) => {
                let rest = transcript(first.scopes, nodes.drop_first());
                Transcript { scopes: rest.scopes, values: seq![v] + rest.values, fault: rest.fault }
            },
            Err(fault) => Transcript {
                scopes: first.scopes,
                values: Seq::empty(),
                fault: Some(fault),
            },
        }
    }
}

/// The values that a program gave, and the fault that ended it, if one did.
#[derive(PartialEq, Debug)]
pub struct Report {
    pub values: Vec<Value>,
    pub fault: Option<RuntimeFault>,
}

/// The values of a report by their views.
pub open spec fn value_views(values: Seq<Value>) -> Seq<ValueView> {
    Seq::new(values.len(), |i: int| values[i]@)
}

/// A result of the evaluator with its value by its view.
pub open spec fn result_view(result: Result<Value, RuntimeFault>) -> Result<
    ValueView,
    RuntimeFault,
> {
    match result {
        Ok(value) => Ok(value@),
        Err(fault) => Err(fault),
    }
}

/// Evaluation changes the current scope at most: the chain keeps its depth,
/// and the scopes around the current one stay as they were.
pub proof fn lemma_evaluate_outer(scopes: Scopes, node: NodeView)
    requires
        scopes.depth() >= 1,
    ensures
        evaluate(scopes, node).scopes.depth() == scopes.depth(),
        evaluate(scopes, node).scopes.outer() == scopes.outer(),
    decreases node,
{
    match node {
        NodeView::Assignment(name, value) => {
            lemma_evaluate_outer(scopes, *value);
            let inner = evaluate(scopes, *value);
            if let Ok(v) = inner.result {
                assert(inner.scopes.define(name, v).outer().chain =~= inner.scopes.outer().chain);
            }
        },
        NodeView::Unary(_, child) => {
            lemma_evaluate_outer(scopes, *child);
        },
        NodeView::Print(expr) => {
            lemma_evaluate_outer(scopes, *expr);
        },
        NodeView::Variable(name) => {
            assert(scopes.define(name, ValueView::Nil).outer().chain =~= scopes.outer().chain);
        },
        NodeView::Block(stmts) => {
            lemma_run_outer(scopes.enter(), stmts, ValueView::Nil);
            assert(scopes.enter().outer().chain =~= scopes.chain);
        },
        _ => {},
    }
}

/// Statements in a row change the current scope at most.
pub proof fn lemma_run_outer(scopes: Scopes, stmts: Seq<NodeView>, last: ValueView)
    requires
        scopes.depth() >= 1,
    ensures
        run(scopes, stmts, last).scopes.depth() == scopes.depth(),
        run(scopes, stmts, last).scopes.outer() == scopes.outer(),
    decreases stmts,
{
    if stmts.len() > 0 {
        lemma_evaluate_outer(scopes, stmts.first());
        let first = evaluate(scopes, stmts.first());
        if let Ok(v) = first.result {
            lemma_run_outer(first.scopes, stmts.drop_first(), v);
        }
    }
}

/// Statements that are evaluated in two goes, the second in the scopes that
/// the first left, give what they give in one go: what the first part
/// binds, the second part reads. After a fault in the first part, nothing of
/// the second is evaluated.
pub proof fn law_transcript_continues(scopes: Scopes, front: Seq<NodeView>, back: Seq<NodeView>)
    ensures
        transcript(scopes, front + back) == (if transcript(scopes, front).fault is None {
            let first = transcript(scopes, front);
            let second = transcript(first.scopes, back);
            Transcript {
                scopes: second.scopes,
                values: first.values + second.values,
                fault: second.fault,
            }
        } else {
            transcript(scopes, front)
        }),
    decreases front.len(),
{
    if front.len() == 0 {
        assert(front + back =~= back);
        let second = transcript(scopes, back);
        assert(Seq::<ValueView>::empty() + second.values =~= second.values);
    } else {
        let head = evaluate(scopes, front.first());
        assert((front + back).first() == front.first());
        assert((front + back).drop_first() =~= front.drop_first() + back);
        if let Ok(v) = head.result {
            law_transcript_continues(head.scopes, front.drop_first(), back);
            let rest = transcript(head.scopes, front.drop_first());
            if rest.fault is None {
                let second = transcript(rest.scopes, back);
                assert(seq![v] + (rest.values + second.values) =~= (seq![v] + rest.values)
                    + second.values);
            }
        }
    }
}

/// A literal evaluates to its value and leaves the scopes as they are.
pub proof fn law_literal(scopes: Scopes, value: ValueView)
    ensures
        evaluate(scopes, NodeView::Literal(value)) == (Outcome { scopes, result: Ok(value) }),
{
}

/// An integer literal evaluates to its integer.
pub proof fn law_integer_literal(scopes: Scopes, n: i32)
    ensures
        evaluate(scopes, NodeView::Literal(ValueView::Int(n))).result == Ok::<_, RuntimeFault>(
            ValueView::Int(n),
        ),
{
}

/// `!` on a boolean literal evaluates to the other boolean.
pub proof fn law_bang_negates(scopes: Scopes, b: bool)
    ensures
        evaluate(
            scopes,
            NodeView::Unary(Operator::Bang, Box::new(NodeView::Literal(ValueView::Boolean(b)))),
        ).result == Ok::<_, RuntimeFault>(ValueView::Boolean(!b)),
{
    reveal_with_fuel(evaluate, 2);
}

/// `-` on an integer literal evaluates to the negated integer. The least
/// integer has no negation in 32 bits.
pub proof fn law_minus_negates(scopes: Scopes, n: i32)
    requires
        n != i32::MIN,
    ensures
        evaluate(
            scopes,
            NodeView::Unary(Operator::Minus, Box::new(NodeView::Literal(ValueView::Int(n)))),
        ).result == Ok::<_, RuntimeFault>(ValueView::Int((-n) as i32)),
        -n == ((-n) as i32) as int,
{
    reveal_with_fuel(evaluate, 2);
}

/// A variable that was declared reads as `Nil`.
pub proof fn law_declared_reads_nil(scopes: Scopes, name: Seq<char>)
    requires
        scopes.depth() >= 1,
    ensures
        evaluate(scopes, NodeView::Variable(name)).result == Ok::<_, RuntimeFault>(ValueView::Nil),
        evaluate(
            evaluate(scopes, NodeView::Variable(name)).scopes,
            NodeView::Identifier(name),
        ).result == Ok::<_, RuntimeFault>(ValueView::Nil),
{
}

/// An assignment yields the value of its right side, and a read of the
/// name that follows it yields the same value.
pub proof fn law_assigned_reads_back(scopes: Scopes, name: Seq<char>, value: NodeView)
    requires
        scopes.depth() >= 1,
        evaluate(scopes, value).result is Ok,
    ensures
        evaluate(scopes, NodeView::Assignment(name, Box::new(value))).result == evaluate(
            scopes,
            value,
        ).result,
        evaluate(
            evaluate(scopes, NodeView::Assignment(name, Box::new(value))).scopes,
            NodeView::Identifier(name),
        ).result == evaluate(scopes, value).result,
{
    lemma_evaluate_outer(scopes, value);
}

/// A block leaves the scopes exactly as it found them, fault or not: what
/// it declared or assigned is gone with its scope, and every name reads
/// after the block as it did before. A name that no scope defined before
/// the block reads as `Nothing` after it, whatever the block did with it.
pub proof fn law_block_is_local(scopes: Scopes, stmts: Seq<NodeView>, name: Seq<char>)
    requires
        scopes.depth() >= 1,
    ensures
        evaluate(scopes, NodeView::Block(stmts)).scopes == scopes,
        !scopes.defines(name) ==> evaluate(scopes, NodeView::Block(stmts)).scopes.lookup(name)
            == ValueView::Nothing,
{
    lemma_run_outer(scopes.enter(), stmts, ValueView::Nil);
    assert(scopes.enter().outer().chain =~= scopes.chain);
    scopes.lemma_owner_range(name);
}

/// A literal evaluated any number of times in a row yields its value each
/// time and leaves the scopes as they are.
pub proof fn law_literal_repeats(scopes: Scopes, value: ValueView, times: nat)
    ensures
        transcript(scopes, Seq::new(times, |i: int| NodeView::Literal(value))) == (Transcript {
            scopes,
            values: Seq::new(times, |i: int| value),
            fault: None,
        }),
    decreases times,
{
    let nodes = Seq::new(times, |i: int| NodeView::Literal(value));
    if times > 0 {
        let fewer = (times - 1) as nat;
        law_literal_repeats(scopes, value, fewer);
        assert(nodes.drop_first() =~= Seq::new(fewer, |i: int| NodeView::Literal(value)));
        assert(seq![value] + Seq::new(fewer, |i: int| value) =~= Seq::new(times, |i: int| value));
    } else {
        assert(Seq::new(times, |i: int| value) =~= Seq::<ValueView>::empty());
    }
}

impl NodeView {
    /// Whether every unary operator in the tree stands before a literal of
    /// the kind that it is defined for: `-` before an integer, `!` before a
    /// boolean, `+` before any.
    pub open spec fn well_typed(self) -> bool
        decreases self,
    {
        match self {
            NodeView::Unary(op, operand) => match *operand {
                NodeView::Literal(value) => apply(op, value) is Ok,
                _ => false,
            },
            NodeView::Assignment(_, value) => value.well_typed(),
            NodeView::Print(expr) => expr.well_typed(),
            NodeView::Block(stmts) => forall|i: int|
                0 <= i < stmts.len() ==> (#[trigger] stmts[i]).well_typed(),
            _ => true,
        }
    }
}

/// The evaluation of a grammatical node meets no placeholder and no
/// overflow: the one fault that is left is an operator before a literal of
/// the wrong kind. Where the tree holds no such operator, the evaluation
/// yields a value.
pub proof fn law_grammatical_faults(scopes: Scopes, node: NodeView)
    requires
        node.grammatical(),
    ensures
        evaluate(scopes, node).result matches Err(fault) ==> fault == RuntimeFault::OperandMismatch,
        node.well_typed() ==> evaluate(scopes, node).result is Ok,
    decreases node,
{
    reveal_with_fuel(NodeView::grammatical, 2);
    reveal_with_fuel(evaluate, 2);
    match node {
        NodeView::Assignment(_, value) => {
            law_grammatical_faults(scopes, *value);
        },
        NodeView::Print(expr) => {
            law_grammatical_faults(scopes, *expr);
        },
        NodeView::Block(stmts) => {
            lemma_grammatical_run_faults(scopes.enter(), stmts, ValueView::Nil);
        },
        _ => {},
    }
}

/// Statements in a row that are all grammatical fault as a single one does.
pub proof fn lemma_grammatical_run_faults(scopes: Scopes, stmts: Seq<NodeView>, last: ValueView)
    requires
        forall|i: int| 0 <= i < stmts.len() ==> (#[trigger] stmts[i]).grammatical(),
    ensures
        run(scopes, stmts, last).result matches Err(fault) ==> fault
            == RuntimeFault::OperandMismatch,
        (forall|i: int| 0 <= i < stmts.len() ==> (#[trigger] stmts[i]).well_typed()) ==> run(
            scopes,
            stmts,
            last,
        ).result is Ok,
    decreases stmts,
{
    if stmts.len() > 0 {
        law_grammatical_faults(scopes, stmts.first());
        let first = evaluate(scopes, stmts.first());
        if let Ok(v) = first.result {
            lemma_grammatical_run_faults(first.scopes, stmts.drop_first(), v);
        }
    }
}

/// A program whose statements are all grammatical ends without a fault or
/// with an operator before a literal of the wrong kind, and without a fault
/// where it holds no such operator.
pub proof fn law_grammatical_program_faults(scopes: Scopes, nodes: Seq<NodeView>)
    requires
        forall|i: int| 0 <= i < nodes.len() ==> (#[trigger] nodes[i]).grammatical(),
    ensures
        transcript(scopes, nodes).fault matches Some(fault) ==> fault
            == RuntimeFault::OperandMismatch,
        (forall|i: int| 0 <= i < nodes.len() ==> (#[trigger] nodes[i]).well_typed()) ==> transcript(
            scopes,
            nodes,
        ).fault is None && transcript(scopes, nodes).values.len() == nodes.len(),
    decreases nodes.len(),
{
    if nodes.len() > 0 {
        law_grammatical_faults(scopes, nodes.first());
        let first = evaluate(scopes, nodes.first());
        law_grammatical_program_faults(first.scopes, nodes.drop_first());
    }
}

/// The evaluator: it walks a tree and keeps the chain of scopes in which the
/// tree's names are read and written.
pub struct Interpreter {
    pub env: Environment,
}

impl Interpreter {
    /// Evaluates the statements of a block in a scope of their own: opens a
    /// scope inside the current one, evaluates the statements in order up to
    /// the first fault, and discards the scope again, fault or not. The
    /// value is that of the last statement, `Nil` for an empty block.
    pub fn execute_block(&mut self, stmts: &Vec<Box<AstNode>>) -> (result: Result<
        Value,
        RuntimeFault,
    >)
        ensures
            final(self).env@ == evaluate(old(self).env@, NodeView::Block(contents(stmts@))).scopes,
            result_view(result) == evaluate(
                old(self).env@,
                NodeView::Block(contents(stmts@)),
            ).result,
        decreases stmts,
    {
        let ghost all = contents(stmts@);
        let ghost start = self.env@.enter();
        self.env.enter();
        let mut value = Value::Nil;
        let mut i: usize = 0;
        assert(all.skip(0) =~= all);
        while i < stmts.len()
            invariant
                i <= stmts.len(),
                all == contents(stmts@),
                start == old(self).env@.enter(),
                self.env@.depth() == start.depth(),
                run(start, all, ValueView::Nil) == run(self.env@, all.skip(i as int), value@),
            decreases stmts.len() - i,
        {
            let ghost before = self.env@;
            let ghost rest = all.skip(i as int);
            assert(rest.drop_first() =~= all.skip(i + 1));
            proof {
                lemma_evaluate_outer(before, rest.first());
            }
            match self.eval(&stmts[i]) {
                Ok(v) => {
                    value = v;
                },
                Err(fault) => {
                    self.env.leave();
                    return Err(fault);
                },
            }
            i += 1;
        }
        self.env.leave();
        Ok(value)
    }

    /// Evaluates the statements of a program in order, each in the scopes
    /// that the one before left, up to the first fault.
    pub fn eval_all(&mut self, nodes: &Vec<AstNode>) -> (report: Report)
        ensures
            final(self).env@ == transcript(old(self).env@, views(nodes@)).scopes,
            value_views(report.values@) == transcript(old(self).env@, views(nodes@)).values,
            report.fault == transcript(old(self).env@, views(nodes@)).fault,
    {
        let ghost all = views(nodes@);
        let ghost start = self.env@;
        let mut values: Vec<Value> = Vec::new();
        let mut i: usize = 0;
        assert(all.skip(0) =~= all);
        assert(value_views(values@) + transcript(start, all).values =~= transcript(
            start,
            all,
        ).values);
        while i < nodes.len()
            invariant
                i <= nodes.len(),
                all == views(nodes@),
                start == old(self).env@,
                transcript(start, all).scopes == transcript(self.env@, all.skip(i as int)).scopes,
                transcript(start, all).fault == transcript(self.env@, all.skip(i as int)).fault,
                transcript(start, all).values == value_views(values@) + transcript(
                    self.env@,
                    all.skip(i as int),
                ).values,
            decreases nodes.len() - i,
        {
            assert(all.skip(i as int).drop_first() =~= all.skip(i + 1));
            match self.eval(&nodes[i]) {
                Ok(value) => {
                    values.push(value);
                },
                Err(fault) => {
                    return Report { values, fault: Some(fault) };
                },
            }
            i += 1;
        }
        Report { values, fault: None }
    }

    /// Evaluates a node in the current chain of scopes.
    ///
    /// A literal yields its value. An identifier is read through the chain,
    /// and yields `Nothing` where no scope defines it. A declaration binds
    /// the name to `Nil` in the current scope. An assignment evaluates its
    /// right side and binds the name to that value in the current scope. A
    /// unary expression evaluates its operand and applies the operator to
    /// it. A print statement yields the value of its expression. A block
    /// yields what [`Interpreter::execute_block`] yields of its statements.
    ///
    /// The faults: an operator on a value that it is not defined for, the
    /// negation of the least integer, and a placeholder in the tree. What a
    /// node did to the current scope before the fault stays done.
    pub fn eval(&mut self, node: &AstNode) -> (result: Result<Value, RuntimeFault>)
        ensures
            final(self).env@ == evaluate(old(self).env@, node@).scopes,
            result_view(result) == evaluate(old(self).env@, node@).result,
        decreases node,
    {
        match node {
            AstNode::Block(Block { stmts }) => {
                assert(node@ == NodeView::Block(contents(stmts@))) by {
                    assert(node@->Block_0 =~= contents(stmts@));
                }
                self.execute_block(stmts)
            },
            AstNode::Print(Print { expr }) => {
                let evaluated_expression = self.eval(expr)?;
                Ok(evaluated_expression)
            },
            AstNode::Expression(Expression::Identifier(identifier)) => {
                Ok(self.env.get_var(identifier.clone()))
            },
            AstNode::Expression(Expression::Variable(variable_name)) => {
                self.env.define(variable_name.clone(), Value::Nil);
                Ok(Value::Nil)
            },
            AstNode::Expression(Expression::Assignment(Assignment { identifier, value })) => {
                let val = self.eval(value)?;
                self.env.define(identifier.clone(), val.clone());
                Ok(val)
            },
            AstNode::Literal(l) => Ok(l.clone()),
            AstNode::Expression(Expression::Unary(Unary { op, child })) => {
                let child = self.eval(child)?;
                match op {
                    Operator::Plus => Ok(child),
                    Operator::Minus => match child {
                        Value::Int(n) => if n == i32::MIN {
                            Err(RuntimeFault::Overflow)
                        } else {
                            Ok(Value::Int(n).neg())
                        },
                        _ => Err(RuntimeFault::OperandMismatch),
                    },
                    Operator::Bang => match child {
                        Value::Boolean(b) => Ok(Value::Boolean(b).not()),
                        _ => Err(RuntimeFault::OperandMismatch),
                    },
                }
            },
            AstNode::Expression(Expression::Null) => Err(RuntimeFault::Placeholder),
        }
    }
}

} // verus!
