use conway::{
    Assignment, AstNode, Block, Environment, Expression, Interpreter, Operator, Print,
    RuntimeFault, Unary, Value,
};

fn interpreter() -> Interpreter {
    Interpreter { env: Environment::new() }
}

fn literal(value: Value) -> AstNode {
    AstNode::Literal(value)
}

fn unary(op: Operator, child: AstNode) -> AstNode {
    AstNode::Expression(Expression::Unary(Unary { op, child: Box::new(child) }))
}

fn variable(name: &str) -> AstNode {
    AstNode::Expression(Expression::Variable(name.to_string()))
}

fn identifier(name: &str) -> AstNode {
    AstNode::Expression(Expression::Identifier(name.to_string()))
}

fn assignment(name: &str, value: AstNode) -> AstNode {
    AstNode::Expression(Expression::Assignment(Assignment {
        identifier: name.to_string(),
        value: Box::new(value),
    }))
}

fn block(stmts: Vec<AstNode>) -> AstNode {
    AstNode::Block(Block { stmts: stmts.into_iter().map(Box::new).collect() })
}

#[test]
fn integer_literals_evaluate_to_themselves() {
    let mut int = interpreter();
    for n in [0, 1, -1, 42, 1285, i32::MAX, i32::MIN] {
        assert_eq!(int.eval(&literal(Value::Int(n))), Ok(Value::Int(n)));
    }
}

#[test]
fn every_literal_value_is_copied_through() {
    let mut int = interpreter();
    assert_eq!(
        int.eval(&literal(Value::Str("hello".to_string()))),
        Ok(Value::Str("hello".to_string()))
    );
    assert_eq!(int.eval(&literal(Value::Boolean(true))), Ok(Value::Boolean(true)));
    assert_eq!(int.eval(&literal(Value::Nil)), Ok(Value::Nil));
    assert_eq!(int.eval(&literal(Value::Nothing)), Ok(Value::Nothing));
}

#[test]
fn bang_negates_boolean_literals() {
    let mut int = interpreter();
    for b in [true, false] {
        let node = unary(Operator::Bang, literal(Value::Boolean(b)));
        assert_eq!(int.eval(&node), Ok(Value::Boolean(!b)));
    }
}

#[test]
fn minus_negates_integer_literals() {
    let mut int = interpreter();
    for n in [0, 1, -1, 41, -41, i32::MAX, i32::MIN + 1] {
        let node = unary(Operator::Minus, literal(Value::Int(n)));
        assert_eq!(int.eval(&node), Ok(Value::Int(-n)));
    }
}

#[test]
fn minus_on_the_least_integer_overflows() {
    let mut int = interpreter();
    let node = unary(Operator::Minus, literal(Value::Int(i32::MIN)));
    assert_eq!(int.eval(&node), Err(RuntimeFault::Overflow));
}

#[test]
fn plus_is_the_identity_on_every_value() {
    let mut int = interpreter();
    assert_eq!(int.eval(&unary(Operator::Plus, literal(Value::Int(7)))), Ok(Value::Int(7)));
    assert_eq!(
        int.eval(&unary(Operator::Plus, literal(Value::Boolean(false)))),
        Ok(Value::Boolean(false))
    );
    assert_eq!(
        int.eval(&unary(Operator::Plus, literal(Value::Str("s".to_string())))),
        Ok(Value::Str("s".to_string()))
    );
    assert_eq!(int.eval(&unary(Operator::Plus, literal(Value::Nil))), Ok(Value::Nil));
}

#[test]
fn operators_fault_on_other_kinds_of_value() {
    let mut int = interpreter();
    assert_eq!(
        int.eval(&unary(Operator::Minus, literal(Value::Boolean(true)))),
        Err(RuntimeFault::OperandMismatch)
    );
    assert_eq!(
        int.eval(&unary(Operator::Minus, literal(Value::Str("1".to_string())))),
        Err(RuntimeFault::OperandMismatch)
    );
    assert_eq!(
        int.eval(&unary(Operator::Bang, literal(Value::Int(0)))),
        Err(RuntimeFault::OperandMismatch)
    );
    assert_eq!(
        int.eval(&unary(Operator::Bang, literal(Value::Nil))),
        Err(RuntimeFault::OperandMismatch)
    );
    assert_eq!(
        int.eval(&unary(Operator::Minus, identifier("missing"))),
        Err(RuntimeFault::OperandMismatch)
    );
}

#[test]
fn a_placeholder_faults() {
    let mut int = interpreter();
    assert_eq!(int.eval(&AstNode::Expression(Expression::Null)), Err(RuntimeFault::Placeholder));
    assert_eq!(
        int.eval(&AstNode::Print(Print { expr: Box::new(AstNode::Expression(Expression::Null)) })),
        Err(RuntimeFault::Placeholder)
    );
}

#[test]
fn declaring_then_reading_yields_nil() {
    let mut int = interpreter();
    assert_eq!(int.eval(&variable("a")), Ok(Value::Nil));
    assert_eq!(int.eval(&identifier("a")), Ok(Value::Nil));
}

#[test]
fn reading_an_unknown_name_yields_nothing() {
    let mut int = interpreter();
    assert_eq!(int.eval(&identifier("a")), Ok(Value::Nothing));
}

#[test]
fn declaring_again_resets_to_nil() {
    let mut int = interpreter();
    assert_eq!(int.eval(&assignment("a", literal(Value::Int(3)))), Ok(Value::Int(3)));
    assert_eq!(int.eval(&variable("a")), Ok(Value::Nil));
    assert_eq!(int.eval(&identifier("a")), Ok(Value::Nil));
}

#[test]
fn assignment_returns_the_value_and_later_reads_reflect_it() {
    let mut int = interpreter();
    assert_eq!(int.eval(&assignment("a", literal(Value::Int(6)))), Ok(Value::Int(6)));
    assert_eq!(int.eval(&assignment("a", literal(Value::Int(4)))), Ok(Value::Int(4)));
    assert_eq!(int.eval(&identifier("a")), Ok(Value::Int(4)));
    assert_eq!(int.eval(&identifier("b")), Ok(Value::Nothing));
}

#[test]
fn assignment_of_a_faulting_value_binds_nothing() {
    let mut int = interpreter();
    let bad = unary(Operator::Bang, literal(Value::Int(1)));
    assert_eq!(int.eval(&assignment("a", bad)), Err(RuntimeFault::OperandMismatch));
    assert_eq!(int.eval(&identifier("a")), Ok(Value::Nothing));
}

#[test]
fn print_yields_the_value_of_its_expression() {
    let mut int = interpreter();
    let node = AstNode::Print(Print { expr: Box::new(literal(Value::Int(9))) });
    assert_eq!(int.eval(&node), Ok(Value::Int(9)));
}

#[test]
fn an_empty_block_yields_nil() {
    let mut int = interpreter();
    assert_eq!(int.eval(&block(vec![])), Ok(Value::Nil));
    assert_eq!(int.execute_block(&vec![]), Ok(Value::Nil));
}

#[test]
fn a_block_yields_the_value_of_its_last_statement() {
    let mut int = interpreter();
    let node = block(vec![
        literal(Value::Int(1)),
        literal(Value::Boolean(true)),
        literal(Value::Str("last".to_string())),
    ]);
    assert_eq!(int.eval(&node), Ok(Value::Str("last".to_string())));
}

#[test]
fn a_variable_of_a_block_is_gone_after_the_block() {
    let mut int = interpreter();
    let node = block(vec![assignment("inner", literal(Value::Int(1))), identifier("inner")]);
    assert_eq!(int.eval(&node), Ok(Value::Int(1)));
    assert_eq!(int.eval(&identifier("inner")), Ok(Value::Nothing));
    assert!(!int.env.is_defined("inner"));
    assert!(int.env.is_root());
}

#[test]
fn a_block_reads_the_variables_around_it() {
    let mut int = interpreter();
    assert_eq!(int.eval(&assignment("a", literal(Value::Int(5)))), Ok(Value::Int(5)));
    assert_eq!(int.eval(&block(vec![identifier("a")])), Ok(Value::Int(5)));
    let nested = block(vec![block(vec![block(vec![identifier("a")])])]);
    assert_eq!(int.eval(&nested), Ok(Value::Int(5)));
}

#[test]
fn an_assignment_in_a_block_binds_in_the_scope_of_the_block() {
    let mut int = interpreter();
    assert_eq!(int.eval(&assignment("a", literal(Value::Int(1)))), Ok(Value::Int(1)));
    let node = block(vec![assignment("a", literal(Value::Int(2))), identifier("a")]);
    assert_eq!(int.eval(&node), Ok(Value::Int(2)));
    assert_eq!(int.eval(&identifier("a")), Ok(Value::Int(1)));
}

#[test]
fn a_fault_in_a_block_still_leaves_the_scope_of_the_block() {
    let mut int = interpreter();
    assert_eq!(int.eval(&assignment("a", literal(Value::Int(1)))), Ok(Value::Int(1)));
    let node = block(vec![
        assignment("b", literal(Value::Int(2))),
        unary(Operator::Minus, literal(Value::Boolean(true))),
        assignment("c", literal(Value::Int(3))),
    ]);
    assert_eq!(int.eval(&node), Err(RuntimeFault::OperandMismatch));
    assert!(int.env.is_root());
    assert_eq!(int.eval(&identifier("a")), Ok(Value::Int(1)));
    assert_eq!(int.eval(&identifier("b")), Ok(Value::Nothing));
    assert_eq!(int.eval(&identifier("c")), Ok(Value::Nothing));
}

#[test]
fn a_fault_in_a_nested_block_leaves_every_scope() {
    let mut int = interpreter();
    let node = block(vec![block(vec![block(vec![AstNode::Expression(Expression::Null)])])]);
    assert_eq!(int.eval(&node), Err(RuntimeFault::Placeholder));
    assert!(int.env.is_root());
}

#[test]
fn a_literal_evaluated_repeatedly_yields_equal_values_and_changes_nothing() {
    let mut int = interpreter();
    assert_eq!(int.eval(&assignment("a", literal(Value::Int(1)))), Ok(Value::Int(1)));
    let node = literal(Value::Str("again".to_string()));
    for _ in 0..5 {
        assert_eq!(int.eval(&node), Ok(Value::Str("again".to_string())));
    }
    assert_eq!(int.eval(&identifier("a")), Ok(Value::Int(1)));
    assert!(!int.env.is_defined("again"));
    assert!(int.env.is_root());
}

#[test]
fn eval_all_gives_the_value_of_each_statement() {
    let mut int = interpreter();
    let nodes = vec![
        assignment("a", literal(Value::Int(6))),
        assignment("a", literal(Value::Int(4))),
        identifier("a"),
    ];
    let report = int.eval_all(&nodes);
    assert_eq!(report.values, vec![Value::Int(6), Value::Int(4), Value::Int(4)]);
    assert_eq!(report.fault, None);
}

#[test]
fn eval_all_stops_at_the_first_fault() {
    let mut int = interpreter();
    let nodes = vec![
        literal(Value::Int(1)),
        unary(Operator::Bang, literal(Value::Int(1))),
        assignment("a", literal(Value::Int(2))),
    ];
    let report = int.eval_all(&nodes);
    assert_eq!(report.values, vec![Value::Int(1)]);
    assert_eq!(report.fault, Some(RuntimeFault::OperandMismatch));
    assert!(!int.env.is_defined("a"));
}

#[test]
fn eval_all_of_no_statement_gives_no_value() {
    let mut int = interpreter();
    let report = int.eval_all(&vec![]);
    assert_eq!(report.values, vec![]);
    assert_eq!(report.fault, None);
}
