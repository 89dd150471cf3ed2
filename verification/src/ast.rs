use crate::expression::{Assignment, Block, Expression, Print, Unary};
use crate::value::{Operator, Value, ValueView};
use vstd::prelude::*;

verus! {

/// A node of the syntax tree. A node owns its children.
#[derive(PartialEq, Debug)]
pub enum AstNode {
    /// Statements in braces.
    Block(Block),
    /// A value written out.
    Literal(Value),
    /// An expression.
    Expression(Expression),
    /// A print statement.
    Print(Print),
}

/// The mathematical content of an [`AstNode`]: the same tree, with the
/// expressions directly among the nodes and every string as its sequence of
/// characters.
pub enum NodeView {
    /// The statements of a block.
    Block(Seq<NodeView>),
    /// A literal and its value.
    Literal(ValueView),
    /// A print statement and its expression.
    Print(Box<NodeView>),
    /// A unary operator and its operand.
    Unary(Operator, Box<NodeView>),
    /// The declaration of a variable, by its name.
    Variable(Seq<char>),
    /// An assignment: the name and the right side.
    Assignment(Seq<char>, Box<NodeView>),
    /// A read of a variable, by its name.
    Identifier(Seq<char>),
    /// A placeholder.
    Null,
}

impl AstNode {
    /// The content of a node, by recursion over the tree.
    pub open spec fn content(self) -> NodeView
        decreases self,
    {
        match self {
            AstNode::Block(block) => NodeView::Block(
                Seq::new(
                    block.stmts@.len(),
                    |i: int|
                        if 0 <= i < block.stmts@.len() {
                            (*block.stmts@[i]).content()
                        } else {
                            NodeView::Null
                        },
                ),
            ),
            AstNode::Literal(value) => NodeView::Literal(value@),
            AstNode::Print(print) => NodeView::Print(Box::new((*print.expr).content())),
            AstNode::Expression(Expression::Unary(unary)) => NodeView::Unary(
                unary.op,
                Box::new((*unary.child).content()),
            ),
            AstNode::Expression(Expression::Variable(name)) => NodeView::Variable(name@),
            AstNode::Expression(Expression::Assignment(assignment)) => NodeView::Assignment(
                assignment.identifier@,
                Box::new((*assignment.value).content()),
            ),
            AstNode::Expression(Expression::Identifier(name)) => NodeView::Identifier(name@),
            AstNode::Expression(Expression::Null) => NodeView::Null,
        }
    }
}

impl Clone for AstNode {
    fn clone(&self) -> (copy: Self)
        ensures
            copy@ == self@,
        decreases self,
    {
        match self {
            AstNode::Block(block) => {
                let mut stmts: Vec<Box<AstNode>> = Vec::new();
                let mut i: usize = 0;
                while i < block.stmts.len()
                    invariant
                        *self is Block && self->Block_0 == *block,
                        i <= block.stmts.len(),
                        stmts.len() == i,
                        forall|k: int| 0 <= k < i ==> (*stmts@[k])@ == (*block.stmts@[k])@,
                    decreases block.stmts.len() - i,
                {
                    stmts.push(Box::new((*block.stmts[i]).clone()));
                    i += 1;
                }
                let copy = AstNode::Block(Block { stmts });
                assert(copy@->Block_0 =~= self@->Block_0);
                copy
            },
            AstNode::Literal(value) => AstNode::Literal(value.clone()),
            AstNode::Print(print) => AstNode::Print(
                Print { expr: Box::new((*print.expr).clone()) },
            ),
            AstNode::Expression(Expression::Unary(unary)) => AstNode::Expression(
                Expression::Unary(Unary { op: unary.op, child: Box::new((*unary.child).clone()) }),
            ),
            AstNode::Expression(Expression::Variable(name)) => AstNode::Expression(
                Expression::Variable(name.clone()),
            ),
            AstNode::Expression(Expression::Assignment(assignment)) => AstNode::Expression(
                Expression::Assignment(
                    Assignment {
                        identifier: assignment.identifier.clone(),
                        value: Box::new((*assignment.value).clone()),
                    },
                ),
            ),
            AstNode::Expression(Expression::Identifier(name)) => AstNode::Expression(
                Expression::Identifier(name.clone()),
            ),
            AstNode::Expression(Expression::Null) => AstNode::Expression(Expression::Null),
        }
    }
}

impl View for AstNode {
    type V = NodeView;

    open spec fn view(&self) -> NodeView {
        self.content()
    }
}

/// The contents of the statements of a block, in order.
pub open spec fn contents(stmts: Seq<Box<AstNode>>) -> Seq<NodeView> {
    Seq::new(stmts.len(), |i: int| (*stmts[i])@)
}

/// The contents of nodes in a row, in order.
pub open spec fn views(nodes: Seq<AstNode>) -> Seq<NodeView> {
    Seq::new(nodes.len(), |i: int| nodes[i]@)
}

} // verus!
