use ssf::analysis::type_check::{check_types, TypeCheckError};
use ssf::ir::{
    AlgebraicAlternative, AlgebraicCase, Argument, Bitcast, Case, Constructor,
    ConstructorApplication, Declaration, Definition, Expression, ForeignDeclaration,
    FunctionApplication, FunctionDefinition, Let, Module, Primitive, PrimitiveAlternative,
    PrimitiveCase, PrimitiveOperation, PrimitiveOperator, Variable,
};
use ssf::types::{self, Type};

fn float64() -> Type {
    Type::Primitive(types::Primitive::Float64)
}

fn number(x: f64) -> Expression {
    Expression::Primitive(Primitive::Float64(x.to_bits()))
}

fn variable(name: &str) -> Expression {
    Expression::Variable(Variable::new(name))
}

fn module(
    foreign_declarations: Vec<ForeignDeclaration>,
    declarations: Vec<Declaration>,
    definitions: Vec<FunctionDefinition>,
) -> Module {
    Module::without_validation(
        foreign_declarations,
        declarations,
        definitions
            .into_iter()
            .map(Definition::FunctionDefinition)
            .collect(),
    )
}

fn float_to_float() -> types::Function {
    types::Function::new(float64(), float64())
}

fn algebraic_case(
    argument: Expression,
    alternatives: Vec<AlgebraicAlternative>,
    default: Option<Expression>,
) -> Expression {
    Expression::Case(Case::Algebraic(AlgebraicCase::new(
        argument,
        alternatives,
        default,
    )))
}

fn primitive_case(
    argument: Expression,
    alternatives: Vec<PrimitiveAlternative>,
    default: Option<Expression>,
) -> Expression {
    Expression::Case(Case::Primitive(PrimitiveCase::new(
        argument,
        alternatives,
        default,
    )))
}

fn apply(function: Expression, argument: Expression) -> Expression {
    Expression::FunctionApplication(FunctionApplication::new(function, argument))
}

#[test]
fn check_types_with_empty_modules() {
    assert_eq!(check_types(&module(vec![], vec![], vec![])), Ok(()));
}

#[test]
fn check_types_of_variables() {
    let module = module(
        vec![],
        vec![],
        vec![FunctionDefinition::new(
            "f",
            vec![Argument::new("x", float64())],
            variable("x"),
            float64(),
        )],
    );
    assert_eq!(check_types(&module), Ok(()));
}

#[test]
fn fail_to_check_types_of_variables() {
    let module = module(
        vec![],
        vec![],
        vec![
            FunctionDefinition::new("f", vec![Argument::new("x", float64())], number(42.0), float64()),
            FunctionDefinition::new("g", vec![Argument::new("x", float64())], variable("f"), float64()),
        ],
    );

    assert!(matches!(
        check_types(&module),
        Err(TypeCheckError::TypesNotMatched(_, _))
    ));
}

#[test]
fn check_types_of_functions() {
    let module = module(
        vec![],
        vec![],
        vec![FunctionDefinition::new(
            "f",
            vec![Argument::new("x", float64())],
            number(42.0),
            float64(),
        )],
    );

    assert_eq!(check_types(&module), Ok(()));
}

#[test]
fn fail_to_check_types_of_functions() {
    let module = module(
        vec![],
        vec![],
        vec![
            FunctionDefinition::new("f", vec![Argument::new("x", float64())], number(42.0), float64()),
            FunctionDefinition::new("g", vec![Argument::new("x", float64())], variable("f"), float64()),
        ],
    );

    assert!(matches!(
        check_types(&module),
        Err(TypeCheckError::TypesNotMatched(_, _))
    ));
}

#[test]
fn check_types_of_function_applications() {
    let module = module(
        vec![],
        vec![],
        vec![
            FunctionDefinition::new("f", vec![Argument::new("x", float64())], number(42.0), float64()),
            FunctionDefinition::new(
                "g",
                vec![Argument::new("x", float64())],
                apply(variable("f"), number(42.0)),
                float64(),
            ),
        ],
    );

    assert_eq!(check_types(&module), Ok(()));
}

#[test]
fn fail_to_check_types_of_function_applications() {
    let module = module(
        vec![],
        vec![],
        vec![
            FunctionDefinition::new("f", vec![Argument::new("x", float64())], number(42.0), float64()),
            FunctionDefinition::new(
                "g",
                vec![Argument::new("x", float64())],
                apply(apply(variable("f"), number(42.0)), number(42.0)),
                float64(),
            ),
        ],
    );

    assert!(matches!(
        check_types(&module),
        Err(TypeCheckError::FunctionExpected(_))
    ));
}

#[test]
fn fail_to_check_types_because_of_missing_variables() {
    let module = module(
        vec![],
        vec![],
        vec![FunctionDefinition::new(
            "f",
            vec![Argument::new("x", float64())],
            variable("y"),
            float64(),
        )],
    );

    assert!(matches!(
        check_types(&module),
        Err(TypeCheckError::VariableNotFound(_))
    ));
}

#[test]
fn check_types_of_nested_let_expressions() {
    let module = module(
        vec![],
        vec![],
        vec![FunctionDefinition::new(
            "f",
            vec![Argument::new("x", float64())],
            Expression::Let(Let::new(
                "y",
                float64(),
                number(42.0),
                Expression::Let(Let::new("z", float64(), variable("y"), variable("z"))),
            )),
            float64(),
        )],
    );

    assert_eq!(check_types(&module), Ok(()));
}

#[test]
fn fail_to_check_types_of_let_expression() {
    let module = module(
        vec![],
        vec![],
        vec![
            FunctionDefinition::new("f", vec![Argument::new("x", float64())], number(42.0), float64()),
            FunctionDefinition::new(
                "g",
                vec![Argument::new("x", float64())],
                Expression::Let(Let::new("y", float64(), variable("f"), variable("y"))),
                float64(),
            ),
        ],
    );

    assert!(matches!(
        check_types(&module),
        Err(TypeCheckError::TypesNotMatched(_, _))
    ));
}

#[test]
fn check_types_of_declarations() {
    let module = module(
        vec![],
        vec![Declaration::new("f", float_to_float())],
        vec![FunctionDefinition::new(
            "g",
            vec![Argument::new("x", float64())],
            apply(variable("f"), variable("x")),
            float64(),
        )],
    );
    assert_eq!(check_types(&module), Ok(()));
}

#[test]
fn fail_to_check_types_of_declarations() {
    let module = module(
        vec![],
        vec![Declaration::new("f", float_to_float())],
        vec![FunctionDefinition::new(
            "g",
            vec![Argument::new("x", float64())],
            variable("f"),
            float64(),
        )],
    );

    assert!(matches!(
        check_types(&module),
        Err(TypeCheckError::TypesNotMatched(_, _))
    ));
}

#[test]
fn check_case_expressions_only_with_default_alternative() {
    let algebraic_type = types::Algebraic::new(vec![types::Constructor::boxed(vec![])]);

    assert_eq!(
        check_types(&module(
            vec![],
            vec![],
            vec![FunctionDefinition::new(
                "f",
                vec![Argument::new("x", Type::Algebraic(algebraic_type))],
                algebraic_case(variable("x"), vec![], Some(number(42.0))),
                float64(),
            )]
        )),
        Ok(())
    );
}

#[test]
fn check_case_expressions_with_one_alternative() {
    let algebraic_type = types::Algebraic::new(vec![types::Constructor::boxed(vec![])]);

    assert_eq!(
        check_types(&module(
            vec![],
            vec![],
            vec![FunctionDefinition::new(
                "f",
                vec![Argument::new("x", Type::Algebraic(algebraic_type.clone()))],
                algebraic_case(
                    variable("x"),
                    vec![AlgebraicAlternative::new(
                        Constructor::new(algebraic_type, 0),
                        vec![],
                        number(42.0)
                    )],
                    None
                ),
                float64(),
            )]
        )),
        Ok(())
    );
}

#[test]
fn check_case_expressions_with_deconstruction() {
    let algebraic_type = types::Algebraic::new(vec![types::Constructor::boxed(vec![float64()])]);

    assert_eq!(
        check_types(&module(
            vec![],
            vec![],
            vec![FunctionDefinition::new(
                "f",
                vec![Argument::new("x", Type::Algebraic(algebraic_type.clone()))],
                algebraic_case(
                    variable("x"),
                    vec![AlgebraicAlternative::new(
                        Constructor::new(algebraic_type, 0),
                        vec!["y".into()],
                        variable("y")
                    )],
                    None
                ),
                float64(),
            )]
        )),
        Ok(())
    );
}

#[test]
fn fail_to_check_case_expressions_without_alternatives() {
    let algebraic_type = types::Algebraic::new(vec![types::Constructor::boxed(vec![])]);

    let module = module(
        vec![],
        vec![],
        vec![FunctionDefinition::new(
            "f",
            vec![Argument::new("x", Type::Algebraic(algebraic_type))],
            algebraic_case(variable("x"), vec![], None),
            float64(),
        )],
    );

    assert!(matches!(
        check_types(&module),
        Err(TypeCheckError::NoAlternativeFound(_))
    ));
}

#[test]
fn fail_to_check_case_expressions_with_inconsistent_alternative_types() {
    let algebraic_type = types::Algebraic::new(vec![types::Constructor::boxed(vec![])]);
    let module = module(
        vec![],
        vec![],
        vec![FunctionDefinition::with_environment(
            "f",
            vec![],
            vec![Argument::new(
                "x",
                Type::Algebraic(types::Algebraic::new(vec![types::Constructor::boxed(vec![])])),
            )],
            algebraic_case(
                variable("x"),
                vec![
                    AlgebraicAlternative::new(
                        Constructor::new(algebraic_type.clone(), 0),
                        vec![],
                        variable("x"),
                    ),
                    AlgebraicAlternative::new(Constructor::new(algebraic_type, 0), vec![], number(42.0)),
                ],
                None,
            ),
            float64(),
        )],
    );

    assert!(matches!(
        check_types(&module),
        Err(TypeCheckError::TypesNotMatched(_, _))
    ));
}

#[test]
fn check_case_expressions_with_recursive_algebraic_types() {
    let algebraic_type = types::Algebraic::new(vec![types::Constructor::boxed(vec![Type::Index(0)])]);

    assert_eq!(
        check_types(&module(
            vec![],
            vec![],
            vec![FunctionDefinition::with_environment(
                "f",
                vec![],
                vec![Argument::new("x", Type::Algebraic(algebraic_type.clone()))],
                algebraic_case(
                    variable("x"),
                    vec![AlgebraicAlternative::new(
                        Constructor::new(algebraic_type.clone(), 0),
                        vec!["y".into()],
                        variable("y"),
                    )],
                    None,
                ),
                Type::Algebraic(algebraic_type),
            )]
        )),
        Ok(())
    );
}

#[test]
fn fail_for_unmatched_case_type() {
    let algebraic_type = types::Algebraic::new(vec![types::Constructor::boxed(vec![])]);
    let other_algebraic_type = types::Algebraic::new(vec![types::Constructor::unboxed(vec![])]);

    assert!(matches!(
        check_types(&module(
            vec![],
            vec![],
            vec![FunctionDefinition::with_environment(
                "f",
                vec![],
                vec![Argument::new("x", Type::Algebraic(algebraic_type))],
                algebraic_case(
                    variable("x"),
                    vec![AlgebraicAlternative::new(
                        Constructor::new(other_algebraic_type, 0),
                        vec![],
                        number(42.0)
                    )],
                    None
                ),
                float64(),
            )],
        )),
        Err(TypeCheckError::TypesNotMatched(_, _))
    ));
}

#[test]
fn mod_check_case_expressions_only_with_default_alternative() {
    assert_eq!(
        check_types(&module(
            vec![],
            vec![],
            vec![FunctionDefinition::with_environment(
                "f",
                vec![],
                vec![Argument::new("x", float64())],
                primitive_case(number(42.0), vec![], Some(number(42.0))),
                float64(),
            )]
        )),
        Ok(())
    );
}

#[test]
fn mod_check_case_expressions_with_one_alternative() {
    assert_eq!(
        check_types(&module(
            vec![],
            vec![],
            vec![FunctionDefinition::with_environment(
                "f",
                vec![],
                vec![Argument::new("x", float64())],
                primitive_case(
                    number(42.0),
                    vec![PrimitiveAlternative::new(Primitive::Float64(42.0f64.to_bits()), number(42.0))],
                    None
                ),
                float64(),
            )],
        )),
        Ok(())
    );
}

#[test]
fn check_case_expressions_with_one_alternative_and_default_alternative() {
    assert_eq!(
        check_types(&module(
            vec![],
            vec![],
            vec![FunctionDefinition::with_environment(
                "f",
                vec![],
                vec![Argument::new("x", float64())],
                primitive_case(
                    number(42.0),
                    vec![PrimitiveAlternative::new(Primitive::Float64(42.0f64.to_bits()), number(42.0))],
                    Some(number(42.0))
                ),
                float64(),
            )],
        )),
        Ok(())
    );
}

#[test]
fn mod_fail_for_unmatched_case_type() {
    assert!(matches!(
        check_types(&module(
            vec![],
            vec![],
            vec![FunctionDefinition::with_environment(
                "f",
                vec![],
                vec![Argument::new("x", float64())],
                primitive_case(
                    number(42.0),
                    vec![PrimitiveAlternative::new(Primitive::Integer32(42), number(42.0))],
                    Some(number(42.0))
                ),
                float64(),
            )],
        )),
        Err(TypeCheckError::TypesNotMatched(_, _))
    ));
}

#[test]
fn check_constructor_applications_with_no_arguments() {
    let algebraic_type = types::Algebraic::new(vec![types::Constructor::boxed(vec![])]);

    assert_eq!(
        check_types(&module(
            vec![],
            vec![],
            vec![FunctionDefinition::with_environment(
                "f",
                vec![],
                vec![Argument::new("x", float64())],
                Expression::ConstructorApplication(ConstructorApplication::new(
                    Constructor::new(algebraic_type.clone(), 0),
                    vec![],
                )),
                Type::Algebraic(algebraic_type),
            )],
        )),
        Ok(())
    );
}

#[test]
fn check_constructor_applications_with_arguments() {
    let algebraic_type = types::Algebraic::new(vec![types::Constructor::boxed(vec![float64()])]);

    assert_eq!(
        check_types(&module(
            vec![],
            vec![],
            vec![FunctionDefinition::with_environment(
                "f",
                vec![],
                vec![Argument::new("x", float64())],
                Expression::ConstructorApplication(ConstructorApplication::new(
                    Constructor::new(algebraic_type.clone(), 0),
                    vec![number(42.0)],
                )),
                Type::Algebraic(algebraic_type),
            )],
        )),
        Ok(())
    );
}

#[test]
fn fail_to_check_constructor_applications_with_wrong_number_of_arguments() {
    let algebraic_type = types::Algebraic::new(vec![types::Constructor::boxed(vec![float64()])]);
    let module = module(
        vec![],
        vec![],
        vec![FunctionDefinition::with_environment(
            "f",
            vec![],
            vec![Argument::new("x", float64())],
            Expression::ConstructorApplication(ConstructorApplication::new(
                Constructor::new(algebraic_type.clone(), 0),
                vec![number(42.0), number(42.0)],
            )),
            Type::Algebraic(algebraic_type),
        )],
    );

    assert!(matches!(
        check_types(&module),
        Err(TypeCheckError::WrongArgumentsLength(_))
    ));
}

#[test]
fn fail_to_check_constructor_applications_with_wrong_argument_type() {
    let algebraic_type = types::Algebraic::new(vec![types::Constructor::boxed(vec![float64()])]);
    let module = module(
        vec![],
        vec![],
        vec![FunctionDefinition::with_environment(
            "f",
            vec![],
            vec![Argument::new("x", float64())],
            Expression::ConstructorApplication(ConstructorApplication::new(
                Constructor::new(algebraic_type.clone(), 0),
                vec![Expression::ConstructorApplication(ConstructorApplication::new(
                    Constructor::new(algebraic_type.clone(), 0),
                    vec![number(42.0)],
                ))],
            )),
            Type::Algebraic(algebraic_type),
        )],
    );

    assert!(matches!(
        check_types(&module),
        Err(TypeCheckError::TypesNotMatched(_, _))
    ));
}

#[test]
fn check_constructor_applications_of_recursive_algebraic_types() {
    let algebraic_type = types::Algebraic::new(vec![types::Constructor::boxed(vec![Type::Index(0)])]);

    assert_eq!(
        check_types(&module(
            vec![],
            vec![],
            vec![FunctionDefinition::new(
                "f",
                vec![Argument::new("x", Type::Algebraic(algebraic_type.clone()))],
                Expression::ConstructorApplication(ConstructorApplication::new(
                    Constructor::new(algebraic_type.clone(), 0),
                    vec![variable("x")],
                )),
                Type::Algebraic(algebraic_type),
            )],
        )),
        Ok(())
    );
}

#[test]
fn check_bitcast() {
    let module = module(
        vec![],
        vec![],
        vec![FunctionDefinition::with_environment(
            "f",
            vec![],
            vec![Argument::new("x", float64())],
            Expression::Bitcast(Bitcast::new(
                Expression::Primitive(Primitive::Integer32(42)),
                float64(),
            )),
            float64(),
        )],
    );
    assert_eq!(check_types(&module), Ok(()));
}

#[test]
fn check_equality_operator() {
    let module = module(
        vec![],
        vec![],
        vec![FunctionDefinition::with_environment(
            "f",
            vec![],
            vec![Argument::new("x", float64())],
            Expression::PrimitiveOperation(PrimitiveOperation::new(
                PrimitiveOperator::Equal,
                number(42.0),
                number(42.0),
            )),
            Type::Primitive(types::Primitive::Integer8),
        )],
    );
    assert_eq!(check_types(&module), Ok(()));
}

#[test]
fn check_types_of_foreign_declarations() {
    let module = module(
        vec![ForeignDeclaration::new("f", "g", float_to_float())],
        vec![],
        vec![FunctionDefinition::new(
            "g",
            vec![Argument::new("x", float64())],
            apply(variable("f"), variable("x")),
            float64(),
        )],
    );
    assert_eq!(check_types(&module), Ok(()));
}

#[test]
fn fail_to_check_types_of_foreign_declarations() {
    let module = module(
        vec![ForeignDeclaration::new("f", "g", float_to_float())],
        vec![],
        vec![FunctionDefinition::new(
            "g",
            vec![Argument::new("x", float64())],
            variable("f"),
            float64(),
        )],
    );

    assert!(matches!(
        check_types(&module),
        Err(TypeCheckError::TypesNotMatched(_, _))
    ));
}

#[test]
fn definition_order_does_not_matter() {
    let f = FunctionDefinition::new(
        "f",
        vec![Argument::new("x", float64())],
        apply(variable("g"), variable("x")),
        float64(),
    );
    let g = FunctionDefinition::new("g", vec![Argument::new("x", float64())], number(1.0), float64());
    assert_eq!(check_types(&module(vec![], vec![], vec![f.clone(), g.clone()])), Ok(()));
    assert_eq!(check_types(&module(vec![], vec![], vec![g, f])), Ok(()));
}

#[test]
fn case_alternatives_must_all_agree_with_the_default() {
    assert!(matches!(
        check_types(&module(
            vec![],
            vec![],
            vec![FunctionDefinition::new(
                "f",
                vec![Argument::new("x", float64())],
                primitive_case(
                    number(42.0),
                    vec![PrimitiveAlternative::new(Primitive::Float64(42.0f64.to_bits()), number(1.0))],
                    Some(Expression::Primitive(Primitive::Integer32(1)))
                ),
                float64(),
            )],
        )),
        Err(TypeCheckError::TypesNotMatched(_, _))
    ));
}

#[test]
fn first_failing_argument_decides_the_error() {
    let algebraic_type =
        types::Algebraic::new(vec![types::Constructor::boxed(vec![float64(), float64()])]);
    let result = check_types(&module(
        vec![],
        vec![],
        vec![FunctionDefinition::new(
            "f",
            vec![Argument::new("x", float64())],
            Expression::ConstructorApplication(ConstructorApplication::new(
                Constructor::new(algebraic_type.clone(), 0),
                vec![Expression::Primitive(Primitive::Integer32(1)), variable("y")],
            )),
            Type::Algebraic(algebraic_type),
        )],
    ));
    assert_eq!(
        result,
        Err(TypeCheckError::TypesNotMatched(
            Type::Primitive(types::Primitive::Integer32),
            float64()
        ))
    );
}

#[test]
fn first_mismatching_primitive_alternative_decides_the_error() {
    let result = check_types(&module(
        vec![],
        vec![],
        vec![FunctionDefinition::new(
            "f",
            vec![Argument::new("x", float64())],
            primitive_case(
                number(42.0),
                vec![
                    PrimitiveAlternative::new(Primitive::Float64(1.0f64.to_bits()), number(1.0)),
                    PrimitiveAlternative::new(Primitive::Integer8(1), number(2.0)),
                    PrimitiveAlternative::new(Primitive::Integer64(1), number(3.0)),
                ],
                None,
            ),
            float64(),
        )],
    ));
    assert_eq!(
        result,
        Err(TypeCheckError::TypesNotMatched(
            Type::Primitive(types::Primitive::Integer8),
            float64()
        ))
    );
}

#[test]
fn first_failing_definition_decides_the_error() {
    let result = check_types(&module(
        vec![],
        vec![],
        vec![
            FunctionDefinition::new("f", vec![Argument::new("x", float64())], number(1.0), float64()),
            FunctionDefinition::new("g", vec![Argument::new("x", float64())], variable("y"), float64()),
            FunctionDefinition::new("h", vec![Argument::new("x", float64())], variable("z"), float64()),
        ],
    ));
    assert_eq!(result, Err(TypeCheckError::VariableNotFound(Variable::new("y"))));
}

#[test]
fn case_with_only_a_default_is_not_refused_for_lack_of_alternatives() {
    let algebraic_type = types::Algebraic::new(vec![types::Constructor::boxed(vec![])]);
    let result = check_types(&module(
        vec![],
        vec![],
        vec![FunctionDefinition::new(
            "f",
            vec![Argument::new("x", Type::Algebraic(algebraic_type))],
            algebraic_case(variable("x"), vec![], Some(variable("q"))),
            float64(),
        )],
    ));
    assert_eq!(result, Err(TypeCheckError::VariableNotFound(Variable::new("q"))));
}
