use ssf::ir::{Argument, Expression, FunctionDefinition, Primitive, Variable};
use ssf::types::{self, Type};

fn float64() -> Type {
    Type::Primitive(types::Primitive::Float64)
}

fn number(x: f64) -> Expression {
    Expression::Primitive(Primitive::Float64(x.to_bits()))
}

fn variable(name: &str) -> Expression {
    Expression::Variable(Variable::new(name))
}

#[test]
fn infer_empty_environment() {
    assert_eq!(
        FunctionDefinition::new(
            "f",
            vec![Argument::new("x", float64())],
            number(42.0),
            float64()
        )
        .infer_environment(&vec![], &vec![]),
        FunctionDefinition::with_environment(
            "f",
            vec![],
            vec![Argument::new("x", float64())],
            number(42.0),
            float64()
        )
    );
}

#[test]
fn function_definition_infer_environment() {
    assert_eq!(
        FunctionDefinition::new(
            "f",
            vec![Argument::new("x", float64())],
            variable("y"),
            float64()
        )
        .infer_environment(&vec![("y".into(), float64())], &vec![]),
        FunctionDefinition::with_environment(
            "f",
            vec![Argument::new("y", float64())],
            vec![Argument::new("x", float64())],
            variable("y"),
            float64()
        )
    );
}

#[test]
fn infer_environment_idempotently() {
    let variables = vec![("y".into(), float64())];

    assert_eq!(
        FunctionDefinition::new(
            "f",
            vec![Argument::new("x", float64())],
            variable("y"),
            float64()
        )
        .infer_environment(&variables, &vec![])
        .infer_environment(&variables, &vec![]),
        FunctionDefinition::with_environment(
            "f",
            vec![Argument::new("y", float64())],
            vec![Argument::new("x", float64())],
            variable("y"),
            float64()
        )
    );
}

#[test]
fn infer_environment_skips_globals_and_repeats() {
    let body = Expression::FunctionApplication(ssf::ir::FunctionApplication::new(
        Expression::FunctionApplication(ssf::ir::FunctionApplication::new(
            variable("g"),
            variable("z"),
        )),
        variable("z"),
    ));
    assert_eq!(
        FunctionDefinition::new("f", vec![Argument::new("x", float64())], body.clone(), float64())
            .infer_environment(&vec![("z".into(), float64())], &vec!["g".into()]),
        FunctionDefinition::with_environment(
            "f",
            vec![Argument::new("z", float64())],
            vec![Argument::new("x", float64())],
            body,
            float64()
        )
    );
}

#[test]
fn function_definition_accessors() {
    let definition = FunctionDefinition::with_environment(
        "f",
        vec![Argument::new("y", float64())],
        vec![Argument::new("x", float64()), Argument::new("z", float64())],
        variable("y"),
        float64(),
    );
    assert_eq!(definition.name(), "f");
    assert_eq!(definition.environment(), &[Argument::new("y", float64())][..]);
    assert_eq!(definition.arguments().len(), 2);
    assert_eq!(definition.body(), &variable("y"));
    assert_eq!(definition.result_type(), &float64());
    assert_eq!(
        definition.type_(),
        Type::Function(types::Function::new(
            float64(),
            Type::Function(types::Function::new(float64(), float64()))
        ))
    );
}

#[test]
fn type_of_function_without_arguments_is_its_result_type() {
    let definition = FunctionDefinition::new("f", vec![], number(1.0), float64());
    assert_eq!(definition.type_(), float64());
}
