use snek_core::ast::{Expression, Operator, Statement};
use snek_core::compiler::{CompiledBlock, Compiler};
use snek_core::value::{HeapValueType, Value, ValueKind};
use snek_core::vm::{Completion, Instruction, RuntimeFault, VirtualMachine};
use std::collections::HashMap;

fn compile(statements: Vec<Statement>) -> CompiledBlock {
    let mut compiler = Compiler::new();
    compiler.compile_main(&statements, "entry").expect("compilation failed")
}

fn run_program(statements: Vec<Statement>) -> Vec<Value> {
    let unit = compile(statements);
    let mut vm = VirtualMachine::new();
    let outcome = vm.execute(&unit, 10_000);
    assert_eq!(outcome, Ok(Completion::Halted));
    vm.stack().clone()
}

fn binary(l: Expression, op: Operator, r: Expression) -> Expression {
    Expression::Binary(Box::new(l), op, Box::new(r))
}

#[test]
fn declaration_then_reference_leaves_value_under_null() {
    // `a := 7` followed by a bare `a`: Int(7) is the top of stack right
    // before the implicit epilogue pushes its null result.
    let stack = run_program(vec![
        Statement::Variable("a".to_string(), Some(Expression::Int(7))),
        Statement::Expression(Expression::Identifier("a".to_string())),
    ]);
    assert_eq!(stack, vec![Value::Int(7), Value::Nil]);
}

#[test]
fn arithmetic_tree_evaluates_with_precedence_resolved() {
    // 2 + 3 * 4, already grouped by the front end.
    let tree = binary(
        Expression::Int(2),
        Operator::Add,
        binary(Expression::Int(3), Operator::Mul, Expression::Int(4)),
    );
    let stack = run_program(vec![Statement::Expression(tree)]);
    assert_eq!(stack, vec![Value::Int(14), Value::Nil]);
}

#[test]
fn mixed_operand_kinds_yield_type_mismatch() {
    let tree = binary(
        Expression::Int(1),
        Operator::Add,
        Expression::Double((2.5f64).to_bits()),
    );
    let unit = compile(vec![Statement::Expression(tree)]);
    let mut vm = VirtualMachine::new();
    let err = vm.execute(&unit, 10_000).unwrap_err();
    assert_eq!(
        err.fault,
        RuntimeFault::OperandTypeMismatch(ValueKind::Int, ValueKind::Double)
    );
    assert_eq!(err.instruction, Instruction::Add);
}

#[test]
fn division_by_zero_is_reported_not_crashed() {
    let tree = binary(Expression::Int(1), Operator::Div, Expression::Int(0));
    let unit = compile(vec![Statement::Expression(tree)]);
    let mut vm = VirtualMachine::new();
    let err = vm.execute(&unit, 10_000).unwrap_err();
    assert_eq!(err.fault, RuntimeFault::DivisionByZero);
}

#[test]
fn remainder_by_zero_is_reported_not_crashed() {
    let tree = binary(Expression::Int(9), Operator::Mod, Expression::Int(0));
    let unit = compile(vec![Statement::Expression(tree)]);
    let mut vm = VirtualMachine::new();
    let err = vm.execute(&unit, 10_000).unwrap_err();
    assert_eq!(err.fault, RuntimeFault::DivisionByZero);
}

#[test]
fn integer_arithmetic_wraps_on_overflow() {
    let tree = binary(
        Expression::Int(i128::MAX as u128),
        Operator::Add,
        Expression::Int(1),
    );
    let stack = run_program(vec![Statement::Expression(tree)]);
    assert_eq!(stack, vec![Value::Int(i128::MIN), Value::Nil]);
}

#[test]
fn integer_division_truncates_toward_zero() {
    let neg_seven = binary(Expression::Int(0), Operator::Sub, Expression::Int(7));
    let tree = binary(neg_seven, Operator::Div, Expression::Int(2));
    let stack = run_program(vec![Statement::Expression(tree)]);
    assert_eq!(stack, vec![Value::Int(-3), Value::Nil]);
}

#[test]
fn double_arithmetic_follows_ieee_754() {
    for (a, b, op, expected) in [
        (1.5f64, 2.25f64, Operator::Add, 1.5f64 + 2.25f64),
        (1.0, 0.25, Operator::Sub, 1.0f64 - 0.25f64),
        (1.5, 2.0, Operator::Mul, 1.5f64 * 2.0f64),
        (7.5, 2.5, Operator::Div, 7.5f64 / 2.5f64),
        (5.5, 2.0, Operator::Mod, 5.5f64 % 2.0f64),
    ] {
        let tree = binary(
            Expression::Double(a.to_bits()),
            op,
            Expression::Double(b.to_bits()),
        );
        let stack = run_program(vec![Statement::Expression(tree)]);
        assert_eq!(stack, vec![Value::Double(expected.to_bits()), Value::Nil]);
    }
}

#[test]
fn forward_branch_offset_spans_emitted_instructions() {
    // Reserve a branch, emit two instructions, patch: the stored offset
    // must lead one past the two skipped instructions.
    let mut compiler = Compiler::new();
    compiler.emit_load_constant(Value::Bool(false)).unwrap();
    let patch = compiler.emit_branch_false();
    compiler.emit_load_constant(Value::Int(10)).unwrap();
    compiler.emit_load_constant(Value::Int(20)).unwrap();
    compiler.patch_jump(patch).unwrap();
    let unit = compiler.compile_main(&vec![], "skip").unwrap();
    assert_eq!(unit.code[1], Instruction::BranchFalse(3));

    // Executing the skip path: the false condition takes the branch and
    // lands exactly one past the two loads, on the epilogue.
    let mut vm = VirtualMachine::new();
    assert_eq!(vm.execute(&unit, 10_000), Ok(Completion::Halted));
    assert_eq!(vm.stack().clone(), vec![Value::Nil]);
}

#[test]
fn forward_branch_falls_through_on_truthy_condition() {
    let mut compiler = Compiler::new();
    compiler.emit_load_constant(Value::Bool(true)).unwrap();
    let patch = compiler.emit_branch_false();
    compiler.emit_load_constant(Value::Int(10)).unwrap();
    compiler.emit_load_constant(Value::Int(20)).unwrap();
    compiler.patch_jump(patch).unwrap();
    let unit = compiler.compile_main(&vec![], "fall").unwrap();
    let mut vm = VirtualMachine::new();
    assert_eq!(vm.execute(&unit, 10_000), Ok(Completion::Halted));
    assert_eq!(
        vm.stack().clone(),
        vec![Value::Int(10), Value::Int(20), Value::Nil]
    );
}

#[test]
fn backward_jump_resumes_at_captured_target() {
    // Capture a target, emit one load, jump back to the target: the loop
    // re-runs the load each pass, bounded by the step budget.
    let mut compiler = Compiler::new();
    let target = compiler.save_branch_target();
    compiler.emit_load_constant(Value::Int(1)).unwrap();
    compiler.emit_jump_to(target).unwrap();
    let unit = compiler.compile_main(&vec![], "spin").unwrap();
    assert_eq!(unit.code[1], Instruction::Jump(-1));

    let mut vm = VirtualMachine::new();
    assert_eq!(vm.execute(&unit, 5), Ok(Completion::OutOfSteps));
    // Steps: load, jump, load, jump, load - three passes over the load.
    assert_eq!(
        vm.stack().clone(),
        vec![Value::Int(1), Value::Int(1), Value::Int(1)]
    );
}

#[test]
fn call_and_return_restore_caller_exactly() {
    // A zero-argument function compiled to its own unit, invoked through
    // a call instruction; after its return the caller resumes one past
    // the call site at depth zero with its own frame intact.
    let mut callee_compiler = Compiler::new();
    let callee = callee_compiler
        .compile_main(
            &vec![Statement::Expression(Expression::Int(42))],
            "callee",
        )
        .unwrap();

    let mut vm = VirtualMachine::new();
    let func = vm.allocate(HeapValueType::Function(callee));

    let mut caller_compiler = Compiler::new();
    caller_compiler.emit_load_constant(func).unwrap();
    caller_compiler.emit(Instruction::Call(0));
    let caller = caller_compiler.compile_main(&vec![], "caller").unwrap();

    assert_eq!(vm.execute(&caller, 10_000), Ok(Completion::Halted));
    assert_eq!(vm.call_depth(), 0);
    // The callee left 42 and its null result; the caller's epilogue then
    // pushed its own null.
    assert_eq!(
        vm.stack().clone(),
        vec![Value::Int(42), Value::Nil, Value::Nil]
    );
}

#[test]
fn call_passes_arguments_into_callee_slots() {
    // A one-argument function: its body reads local slot 0.
    let mut callee_compiler = Compiler::new();
    callee_compiler.declare_local("x").unwrap();
    callee_compiler.emit(Instruction::LoadLocal(0));
    let callee = callee_compiler.compile_main(&vec![], "id").unwrap();

    let mut vm = VirtualMachine::new();
    let func = vm.allocate(HeapValueType::Function(callee));

    let mut caller_compiler = Compiler::new();
    caller_compiler.emit_load_constant(func).unwrap();
    caller_compiler.emit_load_constant(Value::Int(99)).unwrap();
    caller_compiler.emit(Instruction::Call(1));
    let caller = caller_compiler.compile_main(&vec![], "caller").unwrap();

    assert_eq!(vm.execute(&caller, 10_000), Ok(Completion::Halted));
    assert_eq!(
        vm.stack().clone(),
        vec![Value::Int(99), Value::Nil, Value::Nil]
    );
}

#[test]
fn calling_a_non_function_yields_not_callable() {
    let mut compiler = Compiler::new();
    compiler.emit_load_constant(Value::Int(5)).unwrap();
    compiler.emit(Instruction::Call(0));
    let unit = compiler.compile_main(&vec![], "bad").unwrap();
    let mut vm = VirtualMachine::new();
    let err = vm.execute(&unit, 10_000).unwrap_err();
    assert_eq!(err.fault, RuntimeFault::NotCallable);
    assert_eq!(err.ip, 1);
}

#[test]
fn calling_with_too_many_arguments_yields_arity_mismatch() {
    let mut callee_compiler = Compiler::new();
    let callee = callee_compiler.compile_main(&vec![], "zero_slots").unwrap();
    let mut vm = VirtualMachine::new();
    let func = vm.allocate(HeapValueType::Function(callee));
    let mut caller_compiler = Compiler::new();
    caller_compiler.emit_load_constant(func).unwrap();
    caller_compiler.emit_load_constant(Value::Int(1)).unwrap();
    caller_compiler.emit(Instruction::Call(1));
    let caller = caller_compiler.compile_main(&vec![], "caller").unwrap();
    let err = vm.execute(&caller, 10_000).unwrap_err();
    assert_eq!(err.fault, RuntimeFault::ArityMismatch);
}

#[test]
fn popping_an_empty_stack_yields_stack_underflow() {
    let mut compiler = Compiler::new();
    compiler.emit(Instruction::Pop);
    let unit = compiler.compile_main(&vec![], "under").unwrap();
    let mut vm = VirtualMachine::new();
    let err = vm.execute(&unit, 10_000).unwrap_err();
    assert_eq!(err.fault, RuntimeFault::StackUnderflow);
    assert_eq!(err.ip, 0);
    assert_eq!(err.instruction, Instruction::Pop);
}

#[test]
fn reserved_instructions_are_rejected_not_skipped() {
    for op in [
        Instruction::Concat,
        Instruction::Neg,
        Instruction::Lt,
        Instruction::LtEq,
        Instruction::Gt,
        Instruction::GtEq,
        Instruction::Eq,
        Instruction::NEq,
        Instruction::Put,
    ] {
        let mut compiler = Compiler::new();
        compiler.emit(op);
        let unit = compiler.compile_main(&vec![], "reserved").unwrap();
        let mut vm = VirtualMachine::new();
        let err = vm.execute(&unit, 10_000).unwrap_err();
        assert_eq!(err.fault, RuntimeFault::ReservedInstruction);
        assert_eq!(err.instruction, op);
    }
}

#[test]
fn only_the_boolean_true_is_truthy_for_branches() {
    // BranchTrue must fall through for every value but Bool(true),
    // including non-boolean values and the null marker.
    for (cond, taken) in [
        (Value::Bool(true), true),
        (Value::Bool(false), false),
        (Value::Int(1), false),
        (Value::Double((1.0f64).to_bits()), false),
        (Value::Char('y'), false),
        (Value::Nil, false),
    ] {
        let mut compiler = Compiler::new();
        compiler.emit_load_constant(cond).unwrap();
        let patch = compiler.emit_branch_true();
        compiler.emit_load_constant(Value::Int(7)).unwrap();
        compiler.patch_jump(patch).unwrap();
        let unit = compiler.compile_main(&vec![], "truthy").unwrap();
        let mut vm = VirtualMachine::new();
        assert_eq!(vm.execute(&unit, 10_000), Ok(Completion::Halted));
        let expected = if taken {
            vec![Value::Nil]
        } else {
            vec![Value::Int(7), Value::Nil]
        };
        assert_eq!(vm.stack().clone(), expected, "condition {:?}", cond);
    }
}

#[test]
fn allocations_prepend_and_walking_links_visits_all_newest_first() {
    let mut vm = VirtualMachine::new();
    assert_eq!(vm.head(), None);
    let a = vm.allocate(HeapValueType::Str("one".to_string()));
    let b = vm.allocate(HeapValueType::Array(vec![]));
    let c = vm.allocate(HeapValueType::Str("three".to_string()));
    assert_eq!(a, Value::HeapValue(0));
    assert_eq!(b, Value::HeapValue(1));
    assert_eq!(c, Value::HeapValue(2));
    assert_eq!(vm.heap_len(), 3);

    let mut visited = Vec::new();
    let mut cursor = vm.head();
    while let Some(h) = cursor {
        visited.push(h);
        cursor = vm.heap_next(h);
    }
    assert_eq!(visited, vec![2, 1, 0]);
}

#[test]
fn expression_statements_accumulate_on_the_stack() {
    // The chosen policy: no discard after an expression statement, so a
    // sequence of three leaves three values under the epilogue's null.
    let stack = run_program(vec![
        Statement::Expression(Expression::Int(1)),
        Statement::Expression(Expression::Int(2)),
        Statement::Expression(Expression::Int(3)),
    ]);
    assert_eq!(
        stack,
        vec![Value::Int(1), Value::Int(2), Value::Int(3), Value::Nil]
    );
}

#[test]
fn mismatch_reports_operand_kinds_in_stack_order() {
    // The operand popped second is the left-hand side: double plus
    // integer reports (Double, Int).
    let tree = binary(
        Expression::Double((2.5f64).to_bits()),
        Operator::Add,
        Expression::Int(1),
    );
    let unit = compile(vec![Statement::Expression(tree)]);
    let mut vm = VirtualMachine::new();
    let err = vm.execute(&unit, 10_000).unwrap_err();
    assert_eq!(
        err.fault,
        RuntimeFault::OperandTypeMismatch(ValueKind::Double, ValueKind::Int)
    );
}

#[test]
fn out_of_steps_reports_without_failing() {
    let unit = compile(vec![]);
    let mut vm = VirtualMachine::new();
    assert_eq!(vm.execute(&unit, 0), Ok(Completion::OutOfSteps));
    assert_eq!(vm.stack().clone(), Vec::<Value>::new());
}

#[test]
fn values_compare_and_hash_totally() {
    let nan = Value::Double(f64::NAN.to_bits());
    assert_eq!(nan, nan);
    assert_ne!(Value::Double((0.0f64).to_bits()), Value::Double((-0.0f64).to_bits()));
    let mut table: HashMap<Value, &str> = HashMap::new();
    table.insert(nan, "nan");
    table.insert(Value::HeapValue(3), "handle");
    table.insert(Value::Nil, "nil");
    assert_eq!(table[&nan], "nan");
    assert_eq!(table[&Value::HeapValue(3)], "handle");
    assert_eq!(table[&Value::Nil], "nil");
    assert!(Value::Int(1).is_truthy() == false);
    assert!(Value::Bool(true).is_truthy());
    assert!(!Value::Bool(false).is_truthy());
    assert!(!Value::Nil.is_truthy());
}
