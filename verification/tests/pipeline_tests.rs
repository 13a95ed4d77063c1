use kentauri::compiler::Compiler;
use kentauri::errors::InterpreterError;
use kentauri::vm::VM;

/// Compiles and runs one source text on a fresh machine; returns the printed
/// lines on success and the error message otherwise.
fn run_source(source: &str) -> Result<Vec<String>, String> {
    let mut compiler = Compiler::new();
    let mut vm = VM::new();
    match compiler.compile(source) {
        Ok(mut compilation) => {
            let chunk = compilation.chunk.take().unwrap();
            match vm.interpret(chunk) {
                Ok(_) => Ok(vm.take_output()),
                Err(e) => Err(e.message.clone()),
            }
        },
        Err(InterpreterError::CompilerError(e)) => Err(e.message.clone()),
        Err(InterpreterError::SyntaxError(e)) => Err(e.message.clone()),
        Err(InterpreterError::RuntimeError(e)) => Err(e.message.clone()),
    }
}

#[test]
fn multiplication_binds_above_addition() {
    assert_eq!(run_source("print 1 + 2 * 3;"), Ok(vec!["7".to_string()]));
}

#[test]
fn bang_of_equality_matches_not_equal() {
    assert_eq!(run_source("print !(5 == 4);"), Ok(vec!["true".to_string()]));
    assert_eq!(run_source("print 5 != 4;"), Ok(vec!["true".to_string()]));
}

#[test]
fn string_concatenation_through_add() {
    assert_eq!(
        run_source("var a = \"hi \"; var b = \"there\"; print a + b;"),
        Ok(vec!["hi there".to_string()]),
    );
}

#[test]
fn shadowing_across_scopes() {
    assert_eq!(
        run_source("var x = 1; { var x = 2; print x; } print x;"),
        Ok(vec!["2".to_string(), "1".to_string()]),
    );
}

#[test]
fn local_read_in_own_initializer_is_a_compile_error() {
    assert_eq!(
        run_source("{ var a = a; }"),
        Err("Cannot read local variable 'a' in its own initializer".to_string()),
    );
}

#[test]
fn undefined_global_is_a_runtime_error() {
    assert_eq!(
        run_source("print undef;"),
        Err("1: Undefined variable 'undef'.".to_string()),
    );
}

#[test]
fn subtraction_is_left_associative() {
    assert_eq!(run_source("print 1 - 2 - 3;"), Ok(vec!["-4".to_string()]));
}

#[test]
fn grouping_overrides_precedence() {
    assert_eq!(run_source("print (1 + 2) * 3;"), Ok(vec!["9".to_string()]));
}

#[test]
fn unary_minus_and_division() {
    assert_eq!(run_source("print -3 + 5;"), Ok(vec!["2".to_string()]));
    assert_eq!(run_source("print 7 / 2;"), Ok(vec!["3.5".to_string()]));
}

#[test]
fn comparisons_on_numbers() {
    assert_eq!(
        run_source("print 1 < 2; print 2 < 1; print 2 > 1; print 1 >= 2; print 2 <= 2;"),
        Ok(vec![
            "true".to_string(),
            "false".to_string(),
            "true".to_string(),
            "false".to_string(),
            "true".to_string(),
        ]),
    );
}

#[test]
fn equality_is_false_across_tags() {
    assert_eq!(
        run_source("print 1 == \"1\"; print nil == false; print nil == nil;"),
        Ok(vec!["false".to_string(), "false".to_string(), "true".to_string()]),
    );
}

#[test]
fn truthiness_of_values() {
    assert_eq!(
        run_source("print !nil; print !0; print !\"\"; print !\"x\"; print !false;"),
        Ok(vec![
            "true".to_string(),
            "false".to_string(),
            "true".to_string(),
            "false".to_string(),
            "true".to_string(),
        ]),
    );
}

#[test]
fn string_repetition_through_mul() {
    assert_eq!(run_source("print \"ab\" * 3;"), Ok(vec!["ababab".to_string()]));
}

#[test]
fn assignment_is_an_expression() {
    assert_eq!(
        run_source("var a = 1; a = 2; print a; print a = 3;"),
        Ok(vec!["2".to_string(), "3".to_string()]),
    );
}

#[test]
fn invalid_assignment_target_is_a_compile_error() {
    assert_eq!(
        run_source("1 = 2;"),
        Err("Invalid assignment target.".to_string()),
    );
}

#[test]
fn redeclaring_a_local_in_the_same_scope_is_a_compile_error() {
    assert_eq!(
        run_source("{ var a = 1; var a = 2; }"),
        Err("Variable with name 'a' already declared in this scope".to_string()),
    );
}

#[test]
fn assigning_an_undefined_global_is_a_runtime_error() {
    assert_eq!(
        run_source("x = 1;"),
        Err("1: Undefined variable 'x'.".to_string()),
    );
}

#[test]
fn negating_a_string_is_a_runtime_error() {
    assert_eq!(
        run_source("print -\"x\";"),
        Err("1: Operand must be a number".to_string()),
    );
}

#[test]
fn mixed_addition_is_a_runtime_error() {
    assert_eq!(
        run_source("print 1 + \"x\";"),
        Err("1: Invalid binary operator".to_string()),
    );
}

#[test]
fn runtime_error_reports_its_line() {
    assert_eq!(
        run_source("print 1;\nprint missing;"),
        Err("2: Undefined variable 'missing'.".to_string()),
    );
}

#[test]
fn missing_semicolon_is_a_compile_error() {
    assert_eq!(
        run_source("print 1"),
        Err("Expect ';' after value.".to_string()),
    );
}

#[test]
fn missing_expression_is_a_compile_error() {
    assert_eq!(run_source("print ;"), Err("Expect expression".to_string()));
}

#[test]
fn globals_persist_across_runs_on_one_machine() {
    let mut compiler = Compiler::new();
    let mut vm = VM::new();

    let mut first = compiler.compile("var g = 5;").unwrap();
    vm.interpret(first.chunk.take().unwrap()).unwrap();
    assert_eq!(vm.take_output(), Vec::<String>::new());

    let mut second = compiler.compile("print g;").unwrap();
    vm.interpret(second.chunk.take().unwrap()).unwrap();
    assert_eq!(vm.take_output(), vec!["5".to_string()]);
}

#[test]
fn implicit_nil_initializer() {
    assert_eq!(run_source("var a; print a;"), Ok(vec!["nil".to_string()]));
}

#[test]
fn compiling_twice_gives_byte_identical_chunks() {
    let source = "var a = \"hi \"; { var b = 2; print a * b; } print 1 + 2;";
    let mut compiler = Compiler::new();
    let first = compiler.compile(source).unwrap().chunk.take().unwrap();
    let second = compiler.compile(source).unwrap().chunk.take().unwrap();
    assert_eq!(first.code, second.code);
    assert_eq!(
        first.const_pool.values.len(),
        second.const_pool.values.len(),
    );
}

#[test]
fn print_statement_bytecode_layout() {
    // CONST k takes one operand byte; PRINT and RETURN take none.
    let mut compiler = Compiler::new();
    let chunk = compiler.compile("print 1;").unwrap().chunk.take().unwrap();
    assert_eq!(chunk.code, vec![1u8, 0u8, 14u8, 0u8]);
    assert_eq!(chunk.const_pool.values.len(), 1);
}

#[test]
fn local_slots_resolve_to_stack_positions() {
    assert_eq!(
        run_source("{ var a = 10; var b = 20; print a + b; b = 1; print b; }"),
        Ok(vec!["30".to_string(), "1".to_string()]),
    );
}

#[test]
fn machine_continues_after_error_on_fresh_run() {
    let mut compiler = Compiler::new();
    let mut vm = VM::new();

    let mut bad = compiler.compile("print missing;").unwrap();
    assert!(vm.interpret(bad.chunk.take().unwrap()).is_err());
    vm.take_output();

    let mut good = compiler.compile("print 4;").unwrap();
    vm.interpret(good.chunk.take().unwrap()).unwrap();
    assert_eq!(vm.take_output(), vec!["4".to_string()]);
}
