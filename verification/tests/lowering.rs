use kaleido::codegen::{print_function, print_value, CodegenContext, IrInstr, IrOpKind, LowerError};
use kaleido::lexer::TokenReader;
use kaleido::parser::{AstNode, FunctionAstNode, Parser, PrototypeAstNode};

fn first_form(src: &str) -> AstNode {
    let tokens = TokenReader::new(src.chars().collect()).tokenize().expect("lexes");
    let mut parser = Parser::new(tokens);
    parser.parse_top_level().expect("parses").expect("a form")
}

fn one_function(src: &str) -> FunctionAstNode {
    match first_form(src) {
        AstNode::Function(f) => f,
        other => panic!("expected a function, got {:?}", other),
    }
}

fn one_prototype(src: &str) -> PrototypeAstNode {
    match first_form(src) {
        AstNode::Prototype(p) => p,
        other => panic!("expected a prototype, got {:?}", other),
    }
}

#[test]
fn unbound_variable_fails_lowering() {
    let mut cg = CodegenContext::new();
    let f = one_function("def foo(a b) c");
    assert_eq!(cg.codegen_function(f), Err(LowerError::UnboundVariable));
}

#[test]
fn bound_variables_lower() {
    let mut cg = CodegenContext::new();
    let f = one_function("def foo(a b) a + b");
    assert_eq!(cg.codegen_function(f), Ok(0));
    let func = &cg.module.functions[0];
    assert_eq!(func.name, "foo".to_string());
    assert_eq!(func.params, vec!["a".to_string(), "b".to_string()]);
    assert_eq!(
        func.body,
        vec![IrInstr::Param(0), IrInstr::Param(1), IrInstr::Binary(IrOpKind::Add, 0, 1)]
    );
    assert_eq!(func.ret, Some(2));
}

#[test]
fn call_to_undeclared_function_fails_lowering() {
    let mut cg = CodegenContext::new();
    let f = one_function("foo(1)");
    assert_eq!(cg.codegen_function(f), Err(LowerError::UndeclaredFunction));
}

#[test]
fn call_after_extern_lowers() {
    let mut cg = CodegenContext::new();
    let p = one_prototype("extern sin(x)");
    assert_eq!(cg.codegen_prototype(p), 0);
    let f = one_function("sin(1)");
    assert_eq!(cg.codegen_function(f), Ok(1));
    let anon = &cg.module.functions[1];
    assert_eq!(
        anon.body,
        vec![IrInstr::Constant("1".to_string()), IrInstr::Call(0, vec![0])]
    );
    assert_eq!(anon.ret, Some(1));
}

#[test]
fn anonymous_expression_lowers_as_unnamed_function() {
    let mut cg = CodegenContext::new();
    let f = one_function("1 + 2");
    assert_eq!(f.prototype.name, String::new());
    assert!(f.prototype.args.is_empty());
    assert_eq!(cg.codegen_function(f), Ok(0));
    let anon = &cg.module.functions[0];
    assert_eq!(anon.name, String::new());
    assert!(anon.params.is_empty());
    assert_eq!(
        anon.body,
        vec![
            IrInstr::Constant("1".to_string()),
            IrInstr::Constant("2".to_string()),
            IrInstr::Binary(IrOpKind::Add, 0, 1)
        ]
    );
}

#[test]
fn operands_lower_left_before_right() {
    let mut cg = CodegenContext::new();
    let f = one_function("def f(a b) a * 2 - b");
    assert_eq!(cg.codegen_function(f), Ok(0));
    let func = &cg.module.functions[0];
    assert_eq!(
        func.body,
        vec![
            IrInstr::Param(0),
            IrInstr::Param(1),
            IrInstr::Constant("2".to_string()),
            IrInstr::Binary(IrOpKind::Mul, 0, 2),
            IrInstr::Binary(IrOpKind::Sub, 3, 1)
        ]
    );
}

#[test]
fn comparison_lowers_to_cmp() {
    let mut cg = CodegenContext::new();
    let f = one_function("def f(a) a < 3");
    assert_eq!(cg.codegen_function(f), Ok(0));
    assert_eq!(
        cg.module.functions[0].body,
        vec![
            IrInstr::Param(0),
            IrInstr::Constant("3".to_string()),
            IrInstr::Binary(IrOpKind::CmpLt, 0, 1)
        ]
    );
}

#[test]
fn empty_expression_fails_lowering() {
    let mut cg = CodegenContext::new();
    let f = one_function("()");
    assert_eq!(cg.codegen_function(f), Err(LowerError::EmptyExpression));
}

#[test]
fn failed_lowering_leaves_a_bodiless_declaration() {
    let mut cg = CodegenContext::new();
    let f = one_function("def foo(a) b");
    assert_eq!(cg.codegen_function(f), Err(LowerError::UnboundVariable));
    assert_eq!(cg.module.functions.len(), 1);
    assert_eq!(cg.module.functions[0].name, "foo".to_string());
    assert!(cg.module.functions[0].body.is_empty());
    assert_eq!(cg.module.functions[0].ret, None);
    // the next form still lowers
    let ok = one_function("1 + 2");
    assert_eq!(cg.codegen_function(ok), Ok(1));
}

#[test]
fn redeclaration_resolves_to_the_latest() {
    let mut cg = CodegenContext::new();
    let p = one_prototype("extern foo(a)");
    assert_eq!(cg.codegen_prototype(p), 0);
    let f = one_function("def foo(x) x");
    assert_eq!(cg.codegen_function(f), Ok(1));
    assert_eq!(cg.module.get_function(&"foo".to_string()), Some(1));
    let call = one_function("foo(7)");
    assert_eq!(cg.codegen_function(call), Ok(2));
    assert_eq!(
        cg.module.functions[2].body,
        vec![IrInstr::Constant("7".to_string()), IrInstr::Call(1, vec![0])]
    );
}

#[test]
fn parameter_shadowing_binds_the_last_position() {
    let mut cg = CodegenContext::new();
    let f = one_function("def f(a a) a");
    assert_eq!(cg.codegen_function(f), Ok(0));
    let func = &cg.module.functions[0];
    assert_eq!(func.body, vec![IrInstr::Param(0), IrInstr::Param(1)]);
    assert_eq!(func.ret, Some(1));
}

#[test]
fn lookup_of_unknown_name_is_none() {
    let cg = CodegenContext::new();
    assert_eq!(cg.module.get_function(&"nope".to_string()), None);
}

#[test]
fn rendering_a_defined_function() {
    let mut cg = CodegenContext::new();
    let f = one_function("def add2(a b) a + b");
    let fid = cg.codegen_function(f).expect("lowers");
    assert_eq!(
        print_function(&cg.module, fid),
        "define add2(a, b) {\n  %2 = fadd %a, %b\n  ret %2\n}\n"
    );
}

#[test]
fn rendering_a_declaration() {
    let mut cg = CodegenContext::new();
    let p = one_prototype("extern sin(x)");
    let fid = cg.codegen_prototype(p);
    assert_eq!(print_function(&cg.module, fid), "declare sin(x)\n");
}

#[test]
fn rendering_constants_and_calls() {
    let mut cg = CodegenContext::new();
    let p = one_prototype("extern sin(x)");
    cg.codegen_prototype(p);
    let f = one_function("sin(1.5) * 2");
    let fid = cg.codegen_function(f).expect("lowers");
    assert_eq!(
        print_function(&cg.module, fid),
        "define () {\n  %0 = const 1.5\n  %1 = call sin(%0)\n  %2 = const 2\n  %3 = fmul %1, %2\n  ret %3\n}\n"
    );
    assert_eq!(print_value(&cg.module, fid, 0), "%0 = const 1.5");
    assert_eq!(print_value(&cg.module, fid, 1), "%1 = call sin(%0)");
    assert_eq!(print_value(&cg.module, fid, 3), "%3 = fmul %1, %2");
}

#[test]
fn rendering_value_indices_above_nine() {
    let mut cg = CodegenContext::new();
    let f = one_function("1+1+1+1+1+1+1+1+1+1+1+1");
    let fid = cg.codegen_function(f).expect("lowers");
    assert_eq!(print_value(&cg.module, fid, 12), "%12 = fadd %10, %11");
}
