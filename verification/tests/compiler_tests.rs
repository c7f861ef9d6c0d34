use snek_core::ast::{Expression, Operator, Statement};
use snek_core::compiler::{CompileError, Compiler};
use snek_core::value::Value;
use snek_core::vm::Instruction;

fn binary(l: Expression, op: Operator, r: Expression) -> Expression {
    Expression::Binary(Box::new(l), op, Box::new(r))
}

#[test]
fn redeclaring_a_local_fails_and_yields_no_unit() {
    let mut compiler = Compiler::new();
    let program = vec![
        Statement::Variable("x".to_string(), Some(Expression::Int(1))),
        Statement::Variable("x".to_string(), Some(Expression::Int(2))),
    ];
    assert!(matches!(
        compiler.compile_main(&program, "entry"),
        Err(CompileError::RedeclaredLocal)
    ));
}

#[test]
fn declare_local_assigns_dense_slots_and_rejects_duplicates() {
    let mut compiler = Compiler::new();
    assert_eq!(compiler.declare_local("a"), Ok(0));
    assert_eq!(compiler.declare_local("b"), Ok(1));
    assert_eq!(compiler.declare_local("c"), Ok(2));
    assert_eq!(compiler.declare_local("b"), Err(CompileError::RedeclaredLocal));
    // The failed declaration reserved nothing.
    assert_eq!(compiler.declare_local("d"), Ok(3));
}

#[test]
fn referencing_an_undeclared_name_fails() {
    let mut compiler = Compiler::new();
    let program = vec![Statement::Expression(Expression::Identifier("ghost_name".to_string()))];
    assert!(matches!(
        compiler.compile_main(&program, "entry"),
        Err(CompileError::UndeclaredLocal)
    ));

    let mut other = Compiler::new();
    other.declare_local("present").unwrap();
    assert_eq!(other.fetch_local("present"), Ok(0));
    assert_eq!(other.fetch_local("absent"), Err(CompileError::UndeclaredLocal));
}

#[test]
fn unsupported_statements_are_rejected_not_dropped() {
    for statement in [
        Statement::Break,
        Statement::Continue,
        Statement::Return(None),
        Statement::Constant("k".to_string(), Expression::Int(1)),
        Statement::Assignment(
            Expression::Identifier("x".to_string()),
            Expression::Int(1),
        ),
    ] {
        let mut compiler = Compiler::new();
        assert!(matches!(
            compiler.compile_main(&vec![statement], "entry"),
            Err(CompileError::UnsupportedConstruct)
        ));
    }
}

#[test]
fn unsupported_expressions_are_rejected_not_dropped() {
    for expression in [
        Expression::Str("text".to_string()),
        Expression::Char('c'),
        Expression::Bool(true),
        binary(Expression::Int(1), Operator::Lt, Expression::Int(2)),
        binary(Expression::Int(1), Operator::Concat, Expression::Int(2)),
    ] {
        let mut compiler = Compiler::new();
        assert!(matches!(
            compiler.compile_main(&vec![Statement::Expression(expression)], "entry"),
            Err(CompileError::UnsupportedConstruct)
        ));
    }
}

#[test]
fn compile_main_appends_epilogue_and_local_names() {
    let mut compiler = Compiler::new();
    let program = vec![
        Statement::Variable("first".to_string(), Some(Expression::Int(5))),
        Statement::Variable("second".to_string(), None),
        Statement::Expression(Expression::Identifier("first".to_string())),
    ];
    let unit = compiler.compile_main(&program, "entry").unwrap();
    assert_eq!(unit.name, "entry");
    assert_eq!(
        unit.code,
        vec![
            Instruction::LoadConst(0),
            Instruction::StoreLocal(0),
            Instruction::LoadLocal(0),
            Instruction::LoadConst(1),
            Instruction::Return,
        ]
    );
    assert_eq!(unit.consts, vec![Value::Int(5), Value::Nil]);
    assert_eq!(unit.locals, vec!["first".to_string(), "second".to_string()]);

    // The compiler was drained: a fresh compilation starts from nothing.
    let next = compiler.compile_main(&vec![], "again").unwrap();
    assert_eq!(next.code, vec![Instruction::LoadConst(0), Instruction::Return]);
    assert_eq!(next.locals, Vec::<String>::new());
}

#[test]
fn operands_lower_left_then_right_then_operator() {
    let mut compiler = Compiler::new();
    let tree = binary(Expression::Int(2), Operator::Sub, Expression::Int(3));
    let unit = compiler.compile_main(&vec![Statement::Expression(tree)], "entry").unwrap();
    assert_eq!(
        unit.code,
        vec![
            Instruction::LoadConst(0),
            Instruction::LoadConst(1),
            Instruction::Sub,
            Instruction::LoadConst(2),
            Instruction::Return,
        ]
    );
    assert_eq!(unit.consts, vec![Value::Int(2), Value::Int(3), Value::Nil]);
}

#[test]
fn patch_jump_stores_distance_to_current_end() {
    let mut compiler = Compiler::new();
    let p0 = compiler.emit_branch_true();
    compiler.emit(Instruction::Pop);
    compiler.emit(Instruction::Pop);
    compiler.emit(Instruction::Pop);
    compiler.patch_jump(p0).unwrap();
    let p1 = compiler.emit_branch_false();
    compiler.patch_jump(p1).unwrap();
    let unit = compiler.compile_main(&vec![], "patched").unwrap();
    // Branch at 0 patched when the length was 4: offset 4. Branch at 4
    // patched immediately: offset 1.
    assert_eq!(unit.code[0], Instruction::BranchTrue(4));
    assert_eq!(unit.code[4], Instruction::BranchFalse(1));
}

#[test]
fn emit_jump_to_encodes_backward_offset() {
    let mut compiler = Compiler::new();
    compiler.emit(Instruction::Pop);
    let target = compiler.save_branch_target();
    compiler.emit(Instruction::Pop);
    compiler.emit(Instruction::Pop);
    compiler.emit_jump_to(target).unwrap();
    let unit = compiler.compile_main(&vec![], "back").unwrap();
    // Target captured at 1, jump emitted at 3: offset 1 - 3 = -2.
    assert_eq!(unit.code[3], Instruction::Jump(-2));
}

#[test]
fn int_literals_are_narrowed_to_signed() {
    let mut compiler = Compiler::new();
    let unit = compiler
        .compile_main(
            &vec![Statement::Expression(Expression::Int(u128::MAX))],
            "narrow",
        )
        .unwrap();
    assert_eq!(unit.consts[0], Value::Int(-1));
}
