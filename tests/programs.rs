use cvm::{
    lookup, normalize_multiple_args, CompileError, Expr, Instruction, Proc, Program, Stack,
    ProgramBuilder, Registry, RuntimeError, Value, ValueType, Word, MAX_DEPTH,
};

fn signed(n: i128) -> Expr {
    Expr::Literal(Value::Int(n))
}

fn unsigned(n: u128) -> Expr {
    Expr::Literal(Value::UInt(n))
}

fn atom(name: &str) -> Expr {
    Expr::Atom(name.to_string())
}

fn call(name: &str, args: Vec<Expr>) -> Expr {
    let mut items = vec![atom(name)];
    items.extend(args);
    Expr::List(items)
}

fn compile(exprs: Vec<Expr>) -> Result<Program, CompileError> {
    let registry = Registry::with_builtins();
    Program::from_ast(&registry, &exprs)
}

fn eval(exprs: Vec<Expr>) -> Result<Option<Value>, RuntimeError> {
    let mut prog = compile(exprs).expect("the program compiles");
    prog.eval()
}

#[test]
fn test_trivial() {
    let prog = compile(vec![signed(2)]).unwrap();
    assert_eq!(prog.instructions(), &vec![Instruction::Literal(Value::Int(2))]);
    assert_eq!(eval(vec![signed(2)]), Ok(Some(Value::Int(2))));
}

#[test]
fn test_simple() {
    assert_eq!(eval(vec![call("+", vec![signed(1), signed(1)])]), Ok(Some(Value::Int(2))));
}

#[test]
fn test_nested() {
    let e = call("+", vec![call("+", vec![signed(1), signed(2)]), call("+", vec![signed(3), signed(4)])]);
    assert_eq!(eval(vec![e]), Ok(Some(Value::Int(10))));
}

#[test]
fn test_unsigned() {
    let e = call("+", vec![call("+", vec![unsigned(1), unsigned(2)]), call("+", vec![unsigned(3), unsigned(4)])]);
    assert_eq!(eval(vec![e]), Ok(Some(Value::UInt(10))));
}

#[test]
fn test_multivalue() {
    assert_eq!(eval(vec![call("+", vec![signed(1), signed(2), signed(3)])]), Ok(Some(Value::Int(6))));
}

#[test]
fn unsigned_four_arguments_fold_to_the_right() {
    let args = vec![unsigned(1), unsigned(2), unsigned(3), unsigned(4)];
    let folded = normalize_multiple_args(&Word::Add, &args);
    assert_eq!(folded.len(), 2);
    let expected = vec![unsigned(1), call("+", vec![unsigned(2), call("+", vec![unsigned(3), unsigned(4)])])];
    assert_eq!(format!("{:?}", folded), format!("{:?}", expected));
    assert_eq!(eval(vec![call("+", args)]), Ok(Some(Value::UInt(10))));
}

#[test]
fn normalizing_twice_changes_nothing() {
    let args = vec![signed(1), signed(2), signed(3), signed(4), signed(5)];
    let once = normalize_multiple_args(&Word::Mul, &args);
    let twice = normalize_multiple_args(&Word::Mul, &once);
    assert_eq!(once.len(), 2);
    assert_eq!(format!("{:?}", once), format!("{:?}", twice));
    let two = vec![signed(7), signed(8)];
    assert_eq!(format!("{:?}", Word::Add.normalize(&two)), format!("{:?}", two));
}

#[test]
fn grouping_gives_the_same_instructions() {
    let flat = compile(vec![call("+", vec![signed(1), signed(2), signed(3)])]).unwrap();
    let nested =
        compile(vec![call("+", vec![signed(1), call("+", vec![signed(2), signed(3)])])]).unwrap();
    assert_eq!(flat.instructions(), nested.instructions());
    assert_eq!(
        flat.instructions(),
        &vec![
            Instruction::Literal(Value::Int(1)),
            Instruction::Literal(Value::Int(2)),
            Instruction::Literal(Value::Int(3)),
            Instruction::Proc(Proc::AddInt),
            Instruction::Proc(Proc::AddInt),
        ]
    );
    let mut flat = flat;
    let mut nested = nested;
    assert_eq!(flat.eval(), Ok(Some(Value::Int(6))));
    assert_eq!(nested.eval(), Ok(Some(Value::Int(6))));
}

#[test]
fn evaluating_twice_gives_the_same_result() {
    let mut prog = compile(vec![call("*", vec![signed(6), signed(7)])]).unwrap();
    let first = prog.eval();
    let second = prog.eval();
    assert_eq!(first, Ok(Some(Value::Int(42))));
    assert_eq!(first, second);
}

#[test]
fn dispatch_picks_the_procedure_by_type() {
    let sum = compile(vec![call("+", vec![signed(-5), signed(3)])]).unwrap();
    assert_eq!(sum.instructions()[2], Instruction::Proc(Proc::AddInt));
    let usum = compile(vec![call("+", vec![unsigned(5), unsigned(3)])]).unwrap();
    assert_eq!(usum.instructions()[2], Instruction::Proc(Proc::AddUInt));
    let product = compile(vec![call("*", vec![unsigned(5), unsigned(3)])]).unwrap();
    assert_eq!(product.instructions()[2], Instruction::Proc(Proc::MulUInt));
    assert_eq!(eval(vec![call("+", vec![signed(-5), signed(3)])]), Ok(Some(Value::Int(-2))));
    assert_eq!(eval(vec![call("*", vec![signed(-4), signed(3)])]), Ok(Some(Value::Int(-12))));
    assert_eq!(eval(vec![call("*", vec![unsigned(4), unsigned(3)])]), Ok(Some(Value::UInt(12))));
}

#[test]
fn mixed_types_are_a_type_mismatch() {
    let r = compile(vec![call("+", vec![signed(1), unsigned(2)])]);
    assert!(matches!(
        r,
        Err(CompileError::TypeMismatch {
            operator: Word::Add,
            operand_types: (ValueType::Int, ValueType::UInt)
        })
    ));
}

#[test]
fn unknown_operator_is_reported_by_name() {
    let r = compile(vec![call("foo", vec![signed(1), signed(2)])]);
    match r {
        Err(CompileError::UnknownOperator { name }) => assert_eq!(name, "foo"),
        other => panic!("unexpected {:?}", other),
    }
}

#[test]
fn unregistered_word_is_unknown() {
    let mut registry = Registry::new();
    assert!(registry.register(Word::Mul).is_ok());
    let r = Program::from_ast(&registry, &[call("+", vec![signed(1), signed(2)])]);
    assert!(matches!(r, Err(CompileError::UnknownOperator { .. })));
    let ok = Program::from_ast(&registry, &[call("*", vec![signed(2), signed(3)])]);
    assert!(ok.is_ok());
}

#[test]
fn registering_a_name_twice_is_refused() {
    let mut registry = Registry::with_builtins();
    match registry.register(Word::Add) {
        Err(CompileError::RegistrationConflict { name }) => assert_eq!(name, "+"),
        other => panic!("unexpected {:?}", other),
    }
    assert_eq!(lookup(&registry, "+"), Some(Word::Add));
    assert_eq!(lookup(&registry, "*"), Some(Word::Mul));
    assert_eq!(lookup(&registry, "-"), None);
}

#[test]
fn too_few_arguments_are_an_arity_mismatch() {
    let r = compile(vec![call("+", vec![signed(1)])]);
    assert!(matches!(
        r,
        Err(CompileError::ArityMismatch { operator: Word::Add, expected: 2, got: 1 })
    ));
    let r = compile(vec![call("*", vec![])]);
    assert!(matches!(r, Err(CompileError::ArityMismatch { got: 0, .. })));
}

#[test]
fn bare_atom_and_malformed_lists_are_refused() {
    match compile(vec![atom("x")]) {
        Err(CompileError::UnexpectedAtom { name }) => assert_eq!(name, "x"),
        other => panic!("unexpected {:?}", other),
    }
    assert!(matches!(compile(vec![Expr::List(vec![])]), Err(CompileError::MalformedList)));
    assert!(matches!(
        compile(vec![Expr::List(vec![signed(1), signed(2)])]),
        Err(CompileError::MalformedList)
    ));
}

#[test]
fn overflow_is_a_runtime_error() {
    assert_eq!(
        eval(vec![call("+", vec![signed(i128::MAX), signed(1)])]),
        Err(RuntimeError::Overflow)
    );
    assert_eq!(
        eval(vec![call("*", vec![unsigned(u128::MAX), unsigned(2)])]),
        Err(RuntimeError::Overflow)
    );
    assert_eq!(
        eval(vec![call("+", vec![unsigned(u128::MAX), unsigned(0)])]),
        Ok(Some(Value::UInt(u128::MAX)))
    );
    assert_eq!(
        eval(vec![call("+", vec![signed(i128::MIN), signed(-1)])]),
        Err(RuntimeError::Overflow)
    );
}

#[test]
fn empty_program_yields_nothing() {
    assert_eq!(eval(vec![]), Ok(None));
}

#[test]
fn the_last_top_level_value_is_the_result() {
    assert_eq!(eval(vec![signed(1), call("+", vec![signed(2), signed(3)])]), Ok(Some(Value::Int(5))));
}

#[test]
fn nesting_beyond_the_limit_is_refused() {
    let mut e = signed(1);
    for _ in 0..(MAX_DEPTH + 1) {
        e = call("+", vec![e, signed(1)]);
    }
    assert!(matches!(compile(vec![e]), Err(CompileError::NestingTooDeep)));
    let mut e = signed(1);
    for _ in 0..MAX_DEPTH {
        e = call("+", vec![e, signed(1)]);
    }
    assert_eq!(eval(vec![e]), Ok(Some(Value::Int(MAX_DEPTH as i128 + 1))));
}

#[test]
fn builder_type_stack_follows_the_values() {
    let registry = Registry::with_builtins();
    let mut builder = ProgramBuilder::new(&registry);
    assert!(builder.ingest(&[signed(1), unsigned(2)]).is_ok());
    assert!(matches!(builder.peek_two(), Ok((ValueType::Int, ValueType::UInt))));
    assert!(builder.ingest(&[call("+", vec![unsigned(3), unsigned(4)])]).is_ok());
    assert!(matches!(builder.peek_two(), Ok((ValueType::UInt, ValueType::UInt))));
    let mut prog = builder.build();
    assert_eq!(prog.eval(), Ok(Some(Value::UInt(7))));
}

#[test]
fn value_type_follows_the_value() {
    assert_eq!(ValueType::from(&Value::Int(-1)), ValueType::Int);
    assert_eq!(ValueType::from(&Value::UInt(1)), ValueType::UInt);
    assert_eq!(Proc::MulInt.output(), ValueType::Int);
    assert_eq!(Proc::AddUInt.output(), ValueType::UInt);
    assert_eq!(Word::Mul.name(), "*");
}

#[test]
fn procedures_check_their_operands() {
    let mut stack = Stack::new();
    stack.push(Value::Int(1));
    assert_eq!(Proc::AddInt.execute(&mut stack), Err(RuntimeError::StackUnderflow));
    let mut stack = Stack::new();
    stack.push(Value::Int(1));
    stack.push(Value::UInt(2));
    assert_eq!(Proc::AddInt.execute(&mut stack), Err(RuntimeError::OperandMismatch));
    let mut stack = Stack::new();
    stack.push(Value::UInt(6));
    stack.push(Value::UInt(7));
    assert_eq!(Proc::MulUInt.execute(&mut stack), Ok(()));
    assert_eq!(stack.consume_two(), Err(RuntimeError::StackUnderflow));
}

#[test]
fn stack_pops_the_deeper_operand_first() {
    let mut stack = Stack::new();
    stack.push(Value::Int(1));
    stack.push(Value::Int(2));
    stack.push(Value::Int(3));
    assert_eq!(stack.consume_two(), Ok((Value::Int(2), Value::Int(3))));
}

#[test]
fn emitting_without_operands_is_refused() {
    let registry = Registry::with_builtins();
    let mut builder = ProgramBuilder::new(&registry);
    assert!(matches!(builder.peek_two(), Err(CompileError::TypeStackUnderflow)));
    assert!(matches!(Word::Add.emit(&mut builder), Err(CompileError::TypeStackUnderflow)));
    assert!(builder.ingest(&[signed(4), signed(5)]).is_ok());
    assert!(matches!(builder.consume_two(), Ok((ValueType::Int, ValueType::Int))));
    assert!(matches!(builder.consume_two(), Err(CompileError::TypeStackUnderflow)));
}

#[test]
fn a_failed_ingest_leaves_the_builder_as_it_was() {
    let registry = Registry::with_builtins();
    let mut builder = ProgramBuilder::new(&registry);
    assert!(builder.ingest(&[signed(1), signed(2)]).is_ok());
    let r = builder.ingest(&[call("+", vec![signed(3)])]);
    assert!(matches!(r, Err(CompileError::ArityMismatch { got: 1, .. })));
    let r = builder.ingest(&[call("+", vec![signed(3), call("+", vec![signed(4), unsigned(5)])])]);
    assert!(matches!(r, Err(CompileError::TypeMismatch { .. })));
    assert!(matches!(builder.peek_two(), Ok((ValueType::Int, ValueType::Int))));
    let prog = builder.build();
    assert_eq!(
        prog.instructions(),
        &vec![Instruction::Literal(Value::Int(1)), Instruction::Literal(Value::Int(2))]
    );
}

#[test]
fn mixed_operands_add_no_procedure() {
    let registry = Registry::with_builtins();
    let mut builder = ProgramBuilder::new(&registry);
    assert!(builder.ingest(&[signed(1), unsigned(2)]).is_ok());
    assert!(matches!(
        Word::Mul.emit(&mut builder),
        Err(CompileError::TypeMismatch { operator: Word::Mul, .. })
    ));
    assert!(matches!(builder.peek_two(), Ok((ValueType::Int, ValueType::UInt))));
    let prog = builder.build();
    assert_eq!(prog.instructions().len(), 2);
}
