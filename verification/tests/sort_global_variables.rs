use ssf::analysis::error::AnalysisError;
use ssf::analysis::sort_global_variables::sort_global_variables;
use ssf::ir::{
    Argument, Declaration, Definition, Expression, FunctionApplication, FunctionDefinition, Module,
    Primitive, ValueDefinition, Variable,
};
use ssf::types::{self, Type};

fn float64() -> Type {
    Type::Primitive(types::Primitive::Float64)
}

fn number(x: f64) -> Expression {
    Expression::Primitive(Primitive::Float64(x.to_bits()))
}

fn variable(name: &str) -> Expression {
    Expression::Variable(Variable::new(name))
}

fn value(name: &str, body: Expression) -> Definition {
    Definition::ValueDefinition(ValueDefinition::new(name, body, float64()))
}

fn function(name: &str, body: Expression) -> Definition {
    Definition::FunctionDefinition(FunctionDefinition::new(
        name,
        vec![Argument::new("a", float64())],
        body,
        float64(),
    ))
}

fn apply(function: Expression, argument: Expression) -> Expression {
    Expression::FunctionApplication(FunctionApplication::new(function, argument))
}

fn module(definitions: Vec<Definition>) -> Module {
    Module::without_validation(vec![], vec![], definitions)
}

fn sorted(module: &Module) -> Result<Vec<String>, AnalysisError> {
    sort_global_variables(module)
}

fn strings(names: &[&str]) -> Vec<String> {
    names.iter().map(|name| name.to_string()).collect()
}

#[test]
fn sort_global_variables_sort_no_constants() {
    assert_eq!(sorted(&module(vec![])), Ok(vec![]));
}

#[test]
fn sort_constant() {
    assert_eq!(
        sorted(&module(vec![value("x", number(42.0))])),
        Ok(strings(&["x"]))
    );
}

#[test]
fn sort_global_variables_sort_sorted_constants() {
    assert_eq!(
        sorted(&module(vec![
            value("x", number(42.0)),
            value("y", variable("x")),
        ])),
        Ok(strings(&["x", "y"]))
    );
}

#[test]
fn sort_global_variables_sort_constants_not_sorted() {
    assert_eq!(
        sorted(&module(vec![
            value("y", variable("x")),
            value("x", number(42.0)),
        ])),
        Ok(strings(&["x", "y"]))
    );
}

#[test]
fn sort_global_variables_sort_constants_not_sorted_with_function() {
    assert_eq!(
        sorted(&module(vec![
            value("y", apply(variable("f"), number(42.0))),
            function("f", variable("x")),
            value("x", number(42.0)),
        ])),
        Ok(strings(&["x", "y"]))
    );
}

#[test]
fn sort_global_variables_sort_constants_not_sorted_with_recursive_functions() {
    assert_eq!(
        sorted(&module(vec![
            value("y", apply(variable("f"), number(42.0))),
            function("f", apply(variable("g"), variable("x"))),
            function("g", apply(variable("f"), variable("x"))),
            value("x", number(42.0)),
        ])),
        Ok(strings(&["x", "y"]))
    );
}

#[test]
fn sort_global_variables_fail_to_sort_recursively_defined_constant() {
    assert_eq!(
        sorted(&module(vec![value("x", variable("x"))])),
        Err(AnalysisError::CircularInitialization)
    );
}

#[test]
fn sort_global_variables_fail_to_sort_recursively_defined_constants() {
    assert_eq!(
        sorted(&module(vec![
            value("x", variable("y")),
            value("y", variable("x")),
        ])),
        Err(AnalysisError::CircularInitialization)
    );
}

#[test]
fn fail_to_sort_constant_recursive_through_function() {
    assert_eq!(
        sorted(&module(vec![
            value("x", apply(variable("f"), number(42.0))),
            function("f", variable("x")),
        ])),
        Err(AnalysisError::CircularInitialization)
    );
}

#[test]
fn sort_with_declarations() {
    assert_eq!(
        sort_global_variables(&Module::without_validation(
            vec![],
            vec![Declaration::new("x", types::Function::new(float64(), float64()))],
            vec![value("y", variable("x"))],
        )),
        Ok(strings(&["y"]))
    );
}

#[test]
fn sort_global_variables_through_module() {
    let module = module(vec![value("y", variable("x")), value("x", number(42.0))]);
    assert_eq!(module.sort_global_variables(), Ok(strings(&["x", "y"])));
}

#[test]
fn sort_chain_of_constants_through_functions() {
    assert_eq!(
        sorted(&module(vec![
            value("z", apply(variable("g"), number(1.0))),
            function("g", variable("y")),
            value("y", apply(variable("f"), number(2.0))),
            function("f", variable("x")),
            value("x", number(42.0)),
        ])),
        Ok(strings(&["x", "y", "z"]))
    );
}

#[test]
fn independent_constants_are_all_listed() {
    let result = sorted(&module(vec![
        value("a", number(1.0)),
        value("b", number(2.0)),
        function("f", variable("a")),
    ]))
    .unwrap();
    let mut names = result.clone();
    names.sort();
    assert_eq!(names, strings(&["a", "b"]));
}

#[test]
fn recursive_function_alone_is_no_circle() {
    assert_eq!(
        sorted(&module(vec![
            function("f", apply(variable("f"), variable("a"))),
            value("x", apply(variable("f"), number(42.0))),
        ])),
        Ok(strings(&["x"]))
    );
}
