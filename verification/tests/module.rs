use ssf::analysis::type_check::TypeCheckError;
use ssf::ir::{
    Argument, Definition, Expression, FunctionDefinition, LetRecursive, Module, Primitive,
    ValueDefinition, Variable,
};
use ssf::types::{self, Type};

fn float64() -> Type {
    Type::Primitive(types::Primitive::Float64)
}

fn number(x: f64) -> Expression {
    Expression::Primitive(Primitive::Float64(x.to_bits()))
}

fn variable(name: &str) -> Expression {
    Expression::Variable(Variable::new(name))
}

fn value(name: &str, body: Expression) -> Definition {
    Definition::ValueDefinition(ValueDefinition::new(name, body, float64()))
}

#[test]
fn rename_global_definitions() {
    assert_eq!(
        Module::new(vec![], vec![], vec![])
            .unwrap()
            .rename_global_definitions(&vec![]),
        Module::without_validation(vec![], vec![], vec![])
    );
    assert_eq!(
        Module::new(vec![], vec![], vec![value("foo", number(42.0))])
            .unwrap()
            .rename_global_definitions(&vec![("foo".into(), "bar".into())]),
        Module::without_validation(vec![], vec![], vec![value("bar", number(42.0))])
    );
}

#[test]
fn do_not_infer_environment_while_renaming_global_definitions() {
    assert_eq!(
        Module::new(
            vec![],
            vec![],
            vec![
                value("y", number(42.0)),
                Definition::FunctionDefinition(FunctionDefinition::new(
                    "f",
                    vec![Argument::new("x", float64())],
                    Expression::LetRecursive(LetRecursive::new(
                        vec![FunctionDefinition::new(
                            "g",
                            vec![Argument::new("y", float64())],
                            variable("x"),
                            float64()
                        )],
                        number(42.0)
                    )),
                    float64()
                ))
            ]
        )
        .unwrap()
        .rename_global_definitions(&vec![]),
        Module::without_validation(
            vec![],
            vec![],
            vec![
                value("y", number(42.0)),
                Definition::FunctionDefinition(FunctionDefinition::with_environment(
                    "f",
                    vec![],
                    vec![Argument::new("x", float64())],
                    Expression::LetRecursive(LetRecursive::new(
                        vec![FunctionDefinition::with_environment(
                            "g",
                            vec![Argument::new("x", float64())],
                            vec![Argument::new("y", float64())],
                            variable("x"),
                            float64()
                        )],
                        number(42.0)
                    )),
                    float64()
                ))
            ]
        )
    );
}

#[test]
fn module_infer_environment() {
    assert_eq!(
        Module::new(
            vec![],
            vec![],
            vec![Definition::FunctionDefinition(FunctionDefinition::new(
                "f",
                vec![Argument::new("x", float64())],
                number(42.0),
                float64()
            ))]
        ),
        Ok(Module::without_validation(
            vec![],
            vec![],
            vec![Definition::FunctionDefinition(FunctionDefinition::with_environment(
                "f",
                vec![],
                vec![Argument::new("x", float64())],
                number(42.0),
                float64()
            ))]
        ))
    );
    assert_eq!(
        Module::new(
            vec![],
            vec![],
            vec![
                value("y", number(42.0)),
                Definition::FunctionDefinition(FunctionDefinition::new(
                    "f",
                    vec![Argument::new("x", float64())],
                    variable("y"),
                    float64()
                ))
            ]
        ),
        Ok(Module::without_validation(
            vec![],
            vec![],
            vec![
                value("y", number(42.0)),
                Definition::FunctionDefinition(FunctionDefinition::with_environment(
                    "f",
                    vec![],
                    vec![Argument::new("x", float64())],
                    variable("y"),
                    float64()
                ))
            ]
        ))
    );
    assert_eq!(
        Module::new(
            vec![],
            vec![],
            vec![
                value("y", number(42.0)),
                Definition::FunctionDefinition(FunctionDefinition::new(
                    "f",
                    vec![Argument::new("x", float64())],
                    Expression::LetRecursive(LetRecursive::new(
                        vec![FunctionDefinition::new(
                            "g",
                            vec![Argument::new("y", float64())],
                            variable("x"),
                            float64()
                        )],
                        number(42.0)
                    )),
                    float64()
                ))
            ]
        ),
        Ok(Module::without_validation(
            vec![],
            vec![],
            vec![
                value("y", number(42.0)),
                Definition::FunctionDefinition(FunctionDefinition::with_environment(
                    "f",
                    vec![],
                    vec![Argument::new("x", float64())],
                    Expression::LetRecursive(LetRecursive::new(
                        vec![FunctionDefinition::with_environment(
                            "g",
                            vec![Argument::new("x", float64())],
                            vec![Argument::new("y", float64())],
                            variable("x"),
                            float64()
                        )],
                        number(42.0)
                    )),
                    float64()
                ))
            ]
        ))
    );
}

#[test]
fn module_new_reports_type_errors() {
    assert!(matches!(
        Module::new(
            vec![],
            vec![],
            vec![Definition::FunctionDefinition(FunctionDefinition::new(
                "f",
                vec![Argument::new("x", float64())],
                variable("f"),
                float64()
            ))]
        ),
        Err(TypeCheckError::TypesNotMatched(_, _))
    ));
}

#[test]
fn rename_global_definitions_renames_references() {
    let module = Module::new(
        vec![],
        vec![],
        vec![value("x", number(1.0)), value("y", variable("x"))],
    )
    .unwrap();
    assert_eq!(
        module.rename_global_definitions(&vec![("x".into(), "a".into()), ("x".into(), "b".into())]),
        Module::without_validation(
            vec![],
            vec![],
            vec![value("b", number(1.0)), value("y", variable("b"))]
        )
    );
}

#[test]
fn module_accessors_and_definition_names() {
    let module = Module::without_validation(
        vec![],
        vec![],
        vec![
            value("x", number(1.0)),
            Definition::FunctionDefinition(FunctionDefinition::new("f", vec![], number(2.0), float64())),
        ],
    );
    assert_eq!(module.declarations().len(), 0);
    assert_eq!(module.foreign_declarations().len(), 0);
    let names: Vec<&str> = module.definitions().iter().map(|d| d.name()).collect();
    assert_eq!(names, vec!["x", "f"]);
}
