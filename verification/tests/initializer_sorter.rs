use ssf::backend::error::CompileError;
use ssf::backend::initializer_sorter::{initializers_in_order, InitializerSorter};
use ssf::ir::{
    Argument, Definition, Expression, FunctionApplication, FunctionDefinition, Module, Primitive,
    ValueDefinition, Variable,
};
use ssf::types::{self, Type};

fn float64() -> Type {
    Type::Primitive(types::Primitive::Float64)
}

fn number(x: f64) -> Expression {
    Expression::Primitive(Primitive::Float64(x.to_bits()))
}

fn variable(name: &str) -> Expression {
    Expression::Variable(Variable::new(name))
}

fn value(name: &str, body: Expression) -> Definition {
    Definition::ValueDefinition(ValueDefinition::new(name, body, float64()))
}

fn function(name: &str, body: Expression) -> Definition {
    Definition::FunctionDefinition(FunctionDefinition::with_environment(
        name,
        vec![],
        vec![Argument::new("a", float64())],
        body,
        float64(),
    ))
}

fn apply(function: Expression, argument: Expression) -> Expression {
    Expression::FunctionApplication(FunctionApplication::new(function, argument))
}

fn module(definitions: Vec<Definition>) -> Module {
    Module::without_validation(vec![], vec![], definitions)
}

fn strings(names: &[&str]) -> Vec<String> {
    names.iter().map(|name| name.to_string()).collect()
}

#[test]
fn initializer_sorter_sort_no_constants() {
    assert_eq!(InitializerSorter::sort(&module(vec![])), Ok(vec![]));
}

#[test]
fn sort_a_constant() {
    assert_eq!(
        InitializerSorter::sort(&module(vec![value("x", number(42.0))])),
        Ok(strings(&["x"]))
    );
}

#[test]
fn initializer_sorter_sort_sorted_constants() {
    assert_eq!(
        InitializerSorter::sort(&module(vec![
            value("x", number(42.0)),
            value("y", variable("x")),
        ])),
        Ok(strings(&["x", "y"]))
    );
}

#[test]
fn initializer_sorter_sort_constants_not_sorted() {
    assert_eq!(
        InitializerSorter::sort(&module(vec![
            value("y", variable("x")),
            value("x", number(42.0)),
        ])),
        Ok(strings(&["x", "y"]))
    );
}

#[test]
fn initializer_sorter_sort_constants_not_sorted_with_function() {
    assert_eq!(
        InitializerSorter::sort(&module(vec![
            value("y", apply(variable("f"), number(42.0))),
            function("f", variable("x")),
            value("x", number(42.0)),
        ])),
        Ok(strings(&["x", "y"]))
    );
}

#[test]
fn initializer_sorter_sort_constants_not_sorted_with_recursive_functions() {
    assert_eq!(
        InitializerSorter::sort(&module(vec![
            value("y", apply(variable("f"), number(42.0))),
            function("f", apply(variable("g"), variable("x"))),
            function("g", apply(variable("f"), variable("x"))),
            value("x", number(42.0)),
        ])),
        Ok(strings(&["x", "y"]))
    );
}

#[test]
fn initializer_sorter_fail_to_sort_recursively_defined_constant() {
    assert_eq!(
        InitializerSorter::sort(&module(vec![value("x", variable("x"))])),
        Err(CompileError::CircularInitialization)
    );
}

#[test]
fn initializer_sorter_fail_to_sort_recursively_defined_constants() {
    assert_eq!(
        InitializerSorter::sort(&module(vec![
            value("x", variable("y")),
            value("y", variable("x")),
        ])),
        Err(CompileError::CircularInitialization)
    );
}

#[test]
fn initializers_follow_the_given_order() {
    let module = module(vec![
        value("x", number(42.0)),
        function("f", variable("x")),
        value("y", variable("x")),
    ]);
    assert_eq!(
        initializers_in_order(&module, &vec![2, 1, 0]),
        strings(&["y", "x"])
    );
    assert_eq!(initializers_in_order(&module, &vec![]), strings(&[]));
}
