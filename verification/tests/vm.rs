use lox_rs::vm::{InterpretError, Vm};

fn run(src: &str) -> (Result<(), InterpretError>, Vec<String>, Vec<String>) {
    let mut vm = Vm::new();
    let r = vm.interpret(src);
    let out = vm.take_stdout();
    let errs = vm.take_stderr();
    (r, out, errs)
}

#[test]
fn test_vm() {
    let test = (0..=(u8::MAX as usize + 1))
        .into_iter()
        .map(|i| format!("var a{i} = \"this is a test {i}\";"))
        .collect::<Vec<_>>()
        .join(" ");
    let test = format!("{test} print a256;");

    let mut vm = Vm::new();
    let r = vm.interpret(&test);
    assert!(r.is_ok());
    let out = vm.take_stdout();
    assert_eq!(out, vec!["\"this is a test 256\"".to_string()]);
    assert_eq!(vm.stack_len(), 0);
}

#[test]
fn arithmetic_precedence() {
    let (r, out, _) = run("print 1 + 2 * 3;");
    assert!(r.is_ok());
    assert_eq!(out, vec!["7".to_string()]);

    let (r, out, _) = run("print (1 + 2) * 3;");
    assert!(r.is_ok());
    assert_eq!(out, vec!["9".to_string()]);
}

#[test]
fn string_concatenation() {
    let (r, out, _) = run("print \"hi\" + \" \" + \"world\";");
    assert!(r.is_ok());
    assert_eq!(out, vec!["\"hi world\"".to_string()]);
}

#[test]
fn block_scoping_shadows_and_restores() {
    let (r, out, _) = run("var a = 1; { var a = 2; print a; } print a;");
    assert!(r.is_ok());
    assert_eq!(out, vec!["2".to_string(), "1".to_string()]);
}

#[test]
fn if_else_takes_one_arm() {
    let (r, out, _) = run("if (1 < 2) print \"y\"; else print \"n\";");
    assert!(r.is_ok());
    assert_eq!(out, vec!["\"y\"".to_string()]);

    let (r, out, _) = run("if (1 > 2) print \"y\"; else print \"n\";");
    assert!(r.is_ok());
    assert_eq!(out, vec!["\"n\"".to_string()]);
}

#[test]
fn if_without_else() {
    let (r, out, _) = run("if (false) print 1; print 2;");
    assert!(r.is_ok());
    assert_eq!(out, vec!["2".to_string()]);
}

#[test]
fn falseyness_and_equality() {
    let (r, out, _) = run("print !nil; print !0; print nil == false;");
    assert!(r.is_ok());
    assert_eq!(
        out,
        vec!["true".to_string(), "false".to_string(), "true".to_string()]
    );
}

#[test]
fn numeric_operators() {
    let (r, out, _) = run("print 1 / 2; print 5 - 2; print -3; print 2.5 + 0.25;");
    assert!(r.is_ok());
    assert_eq!(
        out,
        vec![
            "0.5".to_string(),
            "3".to_string(),
            "-3".to_string(),
            "2.75".to_string()
        ]
    );
}

#[test]
fn comparisons() {
    let (r, out, _) = run("print 1 < 2; print 1 > 2; print 2 <= 2; print 2 >= 3; print 1 != 2;");
    assert!(r.is_ok());
    assert_eq!(
        out,
        vec![
            "true".to_string(),
            "false".to_string(),
            "true".to_string(),
            "false".to_string(),
            "true".to_string()
        ]
    );
}

#[test]
fn globals_persist_across_interpret_calls() {
    let mut vm = Vm::new();
    assert!(vm.interpret("var a = 40;").is_ok());
    assert!(vm.interpret("a = a + 2; print a;").is_ok());
    let out = vm.take_stdout();
    assert_eq!(out, vec!["42".to_string()]);
    assert_eq!(vm.stack_len(), 0);
}

#[test]
fn stack_is_empty_after_clean_runs() {
    let mut vm = Vm::new();
    assert!(vm.interpret("1 + 2;").is_ok());
    assert_eq!(vm.stack_len(), 0);
    assert!(vm.interpret("var x = 3; { var y = x; y; }").is_ok());
    assert_eq!(vm.stack_len(), 0);
}

#[test]
fn undefined_variable_is_a_runtime_error() {
    let (r, out, errs) = run("print a;");
    assert_eq!(r, Err(InterpretError::Runtime));
    assert!(out.is_empty());
    assert_eq!(
        errs,
        vec![
            "Undefined variable 'a'".to_string(),
            "[line 1] in script".to_string()
        ]
    );
}

#[test]
fn add_type_mismatch_is_a_runtime_error() {
    let (r, _, errs) = run("1 + \"a\";");
    assert_eq!(r, Err(InterpretError::Runtime));
    assert!(errs[0].contains("Operands must be two numbers or two strings."));
}

#[test]
fn arithmetic_type_mismatch_is_a_runtime_error() {
    let (r, _, errs) = run("true * 3;");
    assert_eq!(r, Err(InterpretError::Runtime));
    assert!(errs[0].contains("Operands must be numbers."));
    let (r, _, errs) = run("-nil;");
    assert_eq!(r, Err(InterpretError::Runtime));
    assert!(errs[0].contains("Operand must be a number."));
}

#[test]
fn stack_is_reset_after_a_runtime_error() {
    let mut vm = Vm::new();
    assert_eq!(vm.interpret("1 + true;"), Err(InterpretError::Runtime));
    assert_eq!(vm.stack_len(), 0);
}

#[test]
fn local_self_initialization_is_a_compile_error() {
    let (r, out, errs) = run("{ var a = a; }");
    assert_eq!(r, Err(InterpretError::Compile));
    assert!(out.is_empty());
    assert!(errs
        .iter()
        .any(|e| e.contains("Can't read local variable in its own initializer.")));
    assert!(errs.iter().any(|e| e.contains("[line 1] Error")));
}

#[test]
fn shadowing_in_same_scope_is_a_compile_error() {
    let (r, _, errs) = run("{ var a = 1; var a = 2; }");
    assert_eq!(r, Err(InterpretError::Compile));
    assert!(errs
        .iter()
        .any(|e| e.contains("Already a variable with this name in this scope.")));
}

#[test]
fn missing_expression_is_a_compile_error() {
    let (r, _, errs) = run("print ;");
    assert_eq!(r, Err(InterpretError::Compile));
    assert!(errs.iter().any(|e| e.contains("Expect expression.")));
}

#[test]
fn invalid_assignment_target_is_a_compile_error() {
    let (r, _, errs) = run("1 + 2 = 3;");
    assert_eq!(r, Err(InterpretError::Compile));
    assert!(errs.iter().any(|e| e.contains("Invalid assignment target.")));
}

#[test]
fn error_at_end_names_the_end() {
    let (r, _, errs) = run("print 1");
    assert_eq!(r, Err(InterpretError::Compile));
    assert!(errs.iter().any(|e| e.contains("Error at end:")));
}

#[test]
fn interned_strings_compare_equal_at_runtime() {
    let (r, out, _) = run("print \"a\" + \"b\" == \"ab\"; print \"ab\" == \"ba\";");
    assert!(r.is_ok());
    assert_eq!(out, vec!["true".to_string(), "false".to_string()]);
}

#[test]
fn multiline_program_reports_late_line() {
    let (r, _, errs) = run("print 1;\nprint missing;");
    assert_eq!(r, Err(InterpretError::Runtime));
    assert!(errs
        .iter()
        .any(|e| e.contains("Undefined variable 'missing'")));
    assert!(errs.iter().any(|e| e.contains("[line 2] in script")));
}

#[test]
fn line_numbers_render_in_decimal() {
    let blank_lines = "\n".repeat(11);
    let src = format!("{blank_lines}print missing;");
    let (r, _, errs) = run(&src);
    assert_eq!(r, Err(InterpretError::Runtime));
    assert!(errs.iter().any(|e| e.contains("[line 12] in script")));
}

#[test]
fn compile_diagnostics_have_exact_format() {
    let (r, out, errs) = run("print ;");
    assert_eq!(r, Err(InterpretError::Compile));
    assert!(out.is_empty());
    assert_eq!(
        errs,
        vec!["[line 1] Error at ;: Expect expression.".to_string()]
    );
}

#[test]
fn panic_mode_recovers_at_statement_boundaries() {
    let (r, _, errs) = run("print ; print 1 print ;");
    assert_eq!(r, Err(InterpretError::Compile));
    assert!(errs.len() >= 2);
}

#[test]
fn machine_survives_runtime_errors() {
    let mut vm = Vm::new();
    assert!(vm.interpret("var a = 1;").is_ok());
    assert_eq!(vm.interpret("print b;"), Err(InterpretError::Runtime));
    let _ = vm.take_stdout();
    let _ = vm.take_stderr();
    assert!(vm.interpret("print a;").is_ok());
    assert_eq!(vm.take_stdout(), vec!["1".to_string()]);
}

#[test]
fn local_slots_load_and_store() {
    let (r, out, _) = run("{ var a = 1; var b = 2; a = a + b; print a; print b; }");
    assert!(r.is_ok());
    assert_eq!(out, vec!["3".to_string(), "2".to_string()]);
}

#[test]
fn assignment_is_an_expression() {
    let (r, out, _) = run("var a = 1; print a = 2; print a;");
    assert!(r.is_ok());
    assert_eq!(out, vec!["2".to_string(), "2".to_string()]);
}

#[test]
fn arithmetic_follows_binary64_rounding() {
    let (r, out, _) = run("print 0.1 + 0.2;");
    assert!(r.is_ok());
    assert_eq!(out, vec![format!("{}", 0.1f64 + 0.2f64)]);
}

#[test]
fn numeric_equality_is_two_sided() {
    let (r, out, _) = run("print 1 == 2; print 2 == 1; print 1 == 1; print 1 != 2;");
    assert!(r.is_ok());
    assert_eq!(
        out,
        vec![
            "false".to_string(),
            "false".to_string(),
            "true".to_string(),
            "true".to_string()
        ]
    );
}
