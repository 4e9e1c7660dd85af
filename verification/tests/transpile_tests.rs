use browser_engine::transpile::{stmt_shape, ExprHead, StmtHead};
use browser_engine::escalation::InferenceLevel;
use browser_engine::transpile::{
    parse_js, transpile, transpile_items, StmtShape, Strategy, StrategyRegistry, TranspileError,
};

#[test]
fn test_parse_simple_js() {
    let result = parse_js("var x = 1;");
    assert!(result.is_ok(), "Should parse simple variable declaration");
}

#[test]
fn test_parse_function_declaration() {
    let result = parse_js("function foo() { return 42; }");
    assert!(result.is_ok());
}

#[test]
fn test_parse_arrow_function() {
    let result = parse_js("const add = (a, b) => a + b;");
    assert!(result.is_ok());
}

#[test]
fn test_parse_invalid_js() {
    let result = parse_js("var {{{{");
    assert!(result.is_err());
    match result.unwrap_err() {
        TranspileError::ParseError { message, .. } => {
            assert!(!message.is_empty());
        }
    }
}

#[test]
fn test_transpile_variable_declaration() {
    let result = transpile("var x = 1;");
    assert!(result.is_ok());
    let output = result.unwrap();
    assert!(!output.terms.is_empty());
    assert!(output.terms.contains(&"variable_declaration".to_string()));
}

#[test]
fn test_transpile_function_declaration() {
    let result = transpile("function greet(name) { return 'Hello ' + name; }");
    assert!(result.is_ok());
    let output = result.unwrap();
    assert!(output.terms.contains(&"function_declaration".to_string()));
}

#[test]
fn test_transpile_arrow_function() {
    let result = transpile("(a, b) => a + b;");
    assert!(result.is_ok());
    let output = result.unwrap();
    assert!(output.terms.contains(&"arrow_function".to_string()));
}

#[test]
fn test_transpile_if_else() {
    let result = transpile("if (true) { console.log('yes'); } else { console.log('no'); }");
    assert!(result.is_ok());
    let output = result.unwrap();
    assert!(output.terms.contains(&"if_else".to_string()));
}

#[test]
fn test_transpile_for_loop() {
    let result = transpile("for (var i = 0; i < 10; i++) { console.log(i); }");
    assert!(result.is_ok());
    let output = result.unwrap();
    assert!(output.terms.contains(&"for_loop".to_string()));
}

#[test]
fn test_transpile_while_loop() {
    let result = transpile("while (true) { break; }");
    assert!(result.is_ok());
    let output = result.unwrap();
    assert!(output.terms.contains(&"while_loop".to_string()));
}

#[test]
fn test_transpile_property_access() {
    let result = transpile("document.body;");
    assert!(result.is_ok());
    let output = result.unwrap();
    assert!(output.terms.contains(&"property_access".to_string()));
}

#[test]
fn test_transpile_method_call() {
    let result = transpile("document.getElementById('foo');");
    assert!(result.is_ok());
    let output = result.unwrap();
    assert!(output.terms.contains(&"method_call".to_string()));
}

#[test]
fn test_transpile_template_literal() {
    let result = transpile("`Hello ${name}!`;");
    assert!(result.is_ok());
    let output = result.unwrap();
    assert!(output.terms.contains(&"template_literal".to_string()));
}

#[test]
fn test_escalation_on_unsupported_syntax() {
    let result = transpile("try { x; } catch(e) { }");
    assert!(result.is_ok());
    let output = result.unwrap();
    assert!(!output.escalations.is_empty());
    assert_eq!(output.escalations[0].level, InferenceLevel::Blackbox);
}

#[test]
fn test_escalation_on_module_declaration() {
    let result = transpile("import { foo } from 'bar';");
    assert!(result.is_ok());
    let output = result.unwrap();
    assert_eq!(output.escalations.len(), 1);
    assert_eq!(output.escalations[0].level, InferenceLevel::Fuzzy);
}

#[test]
fn test_strategy_registry_has_defaults() {
    let registry = StrategyRegistry::new();
    assert_eq!(registry.find_strategy(StmtShape::DoWhile), Some(Strategy::WhileLoop));
}

#[test]
fn test_transpile_empty_source() {
    let result = transpile("   ");
    assert!(result.is_ok());
    let output = result.unwrap();
    assert!(output.terms.is_empty());
    assert!(output.escalations.is_empty());
}

#[test]
fn test_transpile_multiple_statements() {
    let result = transpile("var x = 1; function foo() { return x; }");
    assert!(result.is_ok());
    let output = result.unwrap();
    assert!(output.terms.contains(&"variable_declaration".to_string()));
    assert!(output.terms.contains(&"function_declaration".to_string()));
}

#[test]
fn test_transpile_for_of_loop() {
    let result = transpile("for (const item of items) { console.log(item); }");
    assert!(result.is_ok());
    let output = result.unwrap();
    assert!(output.terms.contains(&"for_loop".to_string()));
}

#[test]
fn test_transpile_do_while_loop() {
    let result = transpile("do { x++; } while (x < 10);");
    assert!(result.is_ok());
    let output = result.unwrap();
    assert!(output.terms.contains(&"while_loop".to_string()));
}

#[test]
fn items_keep_source_order() {
    let registry = StrategyRegistry::new();
    let items = vec![
        (Some(StmtShape::If), "if".to_string()),
        (None, "import".to_string()),
        (Some(StmtShape::Other), "try".to_string()),
        (Some(StmtShape::ForIn), "for".to_string()),
    ];
    let out = transpile_items(&items, &registry);
    assert_eq!(out.terms, vec!["if_else".to_string(), "for_loop".to_string()]);
    assert_eq!(out.escalations.len(), 2);
    assert_eq!(out.escalations[0].reason, "Module declaration encountered");
    assert_eq!(out.escalations[0].evidence_paths, vec!["import".to_string()]);
    assert_eq!(out.escalations[0].allowed_outputs, vec!["skip_module_declaration".to_string()]);
    assert_eq!(out.escalations[1].reason, "No transpile strategy for statement kind: try");
    assert_eq!(out.escalations[1].allowed_outputs, vec!["skip_unsupported".to_string()]);
}

#[test]
fn registered_strategy_comes_after_defaults() {
    let mut registry = StrategyRegistry::new();
    registry.register(Strategy::IfElse);
    assert_eq!(registry.find_strategy(StmtShape::If), Some(Strategy::IfElse));
    assert_eq!(registry.find_strategy(StmtShape::Other), None);
    let e = TranspileError::ParseError { line: 3, col: 7, message: "Unexpected token".to_string() };
    assert_eq!(e.message(), "Parse error at line 3, col 7: Unexpected token");
}

#[test]
fn statement_heads_give_shapes() {
    assert_eq!(stmt_shape(StmtHead::Expr, Some(ExprHead::Call), Some(ExprHead::Member)), StmtShape::MethodCallExpr);
    assert_eq!(stmt_shape(StmtHead::Expr, Some(ExprHead::Call), Some(ExprHead::Other)), StmtShape::Other);
    assert_eq!(stmt_shape(StmtHead::Expr, Some(ExprHead::Call), None), StmtShape::Other);
    assert_eq!(stmt_shape(StmtHead::Expr, Some(ExprHead::Template), None), StmtShape::TemplateExpr);
    assert_eq!(stmt_shape(StmtHead::ForOf, None, None), StmtShape::ForOf);
    assert_eq!(stmt_shape(StmtHead::Other, None, None), StmtShape::Other);
}

#[test]
fn plain_function_call_is_escalated() {
    let result = transpile("foo(1); x.y(2);").unwrap();
    assert_eq!(result.terms, vec!["method_call".to_string()]);
    assert_eq!(result.escalations.len(), 1);
}
