use ssf::analysis::error::AnalysisError;
use ssf::analysis::reference_count::reference_count;
use ssf::analysis::type_check::{TypeCheckError, TypeChecker};
use ssf::backend::compile_configuration::CompileConfiguration;
use ssf::backend::entry_functions::generate_closure_entry_name;
use ssf::backend::error::CompileError;
use ssf::backend::ffi_function_type::FfiFunctionType;
use ssf::ir::{
    AlgebraicAlternative, AlgebraicCase, Argument, Case, Constructor, Definition, Expression,
    FunctionApplication, FunctionDefinition, Let, LetRecursive, Module, Primitive,
    PrimitiveOperation, PrimitiveOperator, ValueDefinition, Variable,
};
use ssf::types::{self, Type};

fn float64() -> Type {
    Type::Primitive(types::Primitive::Float64)
}

fn number(x: f64) -> Expression {
    Expression::Primitive(Primitive::Float64(x.to_bits()))
}

fn variable(name: &str) -> Expression {
    Expression::Variable(Variable::new(name))
}

fn apply(function: Expression, argument: Expression) -> Expression {
    Expression::FunctionApplication(FunctionApplication::new(function, argument))
}

#[test]
fn rename_free_variables_only() {
    let expression = Expression::Let(Let::new(
        "x",
        float64(),
        variable("x"),
        apply(variable("x"), variable("y")),
    ));
    let renamed = expression.rename_variables(&vec![
        ("x".into(), "a".into()),
        ("y".into(), "b".into()),
    ]);
    assert_eq!(
        renamed,
        Expression::Let(Let::new(
            "x",
            float64(),
            variable("a"),
            apply(variable("x"), variable("b")),
        ))
    );
}

#[test]
fn rename_by_nothing_keeps_expression() {
    let expression = apply(variable("f"), variable("y"));
    assert_eq!(expression.rename_variables(&vec![]), expression);
}

#[test]
fn rename_inside_functions_spares_their_names_and_arguments() {
    let definition = FunctionDefinition::new(
        "f",
        vec![Argument::new("x", float64())],
        apply(apply(variable("f"), variable("x")), variable("z")),
        float64(),
    );
    assert_eq!(
        definition.rename_variables(&vec![
            ("f".into(), "g".into()),
            ("x".into(), "y".into()),
            ("z".into(), "w".into()),
        ]),
        FunctionDefinition::new(
            "f",
            vec![Argument::new("x", float64())],
            apply(apply(variable("f"), variable("x")), variable("w")),
            float64(),
        )
    );
}

#[test]
fn find_free_variables_once_in_order() {
    let expression = apply(
        apply(variable("b"), variable("a")),
        Expression::Let(Let::new("c", float64(), variable("b"), variable("c"))),
    );
    assert_eq!(
        expression.find_variables(&vec![]),
        vec!["b".to_string(), "a".to_string()]
    );
    assert_eq!(
        expression.find_variables(&vec!["b".into()]),
        vec!["a".to_string()]
    );
}

#[test]
fn find_variables_of_algebraic_alternatives_spares_elements() {
    let algebraic_type = types::Algebraic::new(vec![types::Constructor::boxed(vec![float64()])]);
    let expression = Expression::Case(Case::Algebraic(AlgebraicCase::new(
        variable("v"),
        vec![AlgebraicAlternative::new(
            Constructor::new(algebraic_type, 0),
            vec!["e".into()],
            apply(variable("e"), variable("w")),
        )],
        None,
    )));
    assert_eq!(
        expression.find_variables(&vec![]),
        vec!["v".to_string(), "w".to_string()]
    );
}

#[test]
fn reference_count_clears_environments() {
    let module = Module::without_validation(
        vec![],
        vec![],
        vec![
            Definition::ValueDefinition(ValueDefinition::new(
                "x",
                Expression::LetRecursive(LetRecursive::new(
                    vec![FunctionDefinition::with_environment(
                        "g",
                        vec![Argument::new("y", float64())],
                        vec![],
                        number(1.0),
                        float64(),
                    )],
                    number(2.0),
                )),
                float64(),
            )),
            Definition::FunctionDefinition(FunctionDefinition::with_environment(
                "f",
                vec![Argument::new("z", float64())],
                vec![Argument::new("a", float64())],
                Expression::PrimitiveOperation(PrimitiveOperation::new(
                    PrimitiveOperator::Add,
                    number(1.0),
                    number(2.0),
                )),
                float64(),
            )),
        ],
    );
    assert_eq!(
        reference_count(&module),
        Module::without_validation(
            vec![],
            vec![],
            vec![
                Definition::ValueDefinition(ValueDefinition::new(
                    "x",
                    Expression::LetRecursive(LetRecursive::new(
                        vec![FunctionDefinition::new("g", vec![], number(1.0), float64())],
                        number(2.0),
                    )),
                    float64(),
                )),
                Definition::FunctionDefinition(FunctionDefinition::new(
                    "f",
                    vec![Argument::new("a", float64())],
                    Expression::PrimitiveOperation(PrimitiveOperation::new(
                        PrimitiveOperator::Add,
                        number(1.0),
                        number(2.0),
                    )),
                    float64(),
                )),
            ],
        )
    );
}

#[test]
fn type_checker_checks_modules() {
    let module = Module::without_validation(
        vec![],
        vec![],
        vec![Definition::ValueDefinition(ValueDefinition::new(
            "x",
            Expression::Primitive(Primitive::Integer64(1)),
            float64(),
        ))],
    );
    assert!(matches!(
        TypeChecker::new().check(&module),
        Err(TypeCheckError::TypesNotMatched(_, _))
    ));
    let module = Module::without_validation(
        vec![],
        vec![],
        vec![Definition::ValueDefinition(ValueDefinition::new("x", number(1.0), float64()))],
    );
    assert_eq!(TypeChecker::new().check(&module), Ok(()));
}

#[test]
fn errors_convert() {
    let error = TypeCheckError::VariableNotFound(Variable::new("x"));
    assert_eq!(
        AnalysisError::from(TypeCheckError::VariableNotFound(Variable::new("x"))),
        AnalysisError::TypeCheck(error)
    );
    assert_eq!(
        CompileError::from(TypeCheckError::VariableNotFound(Variable::new("y"))),
        CompileError::Ssf(TypeCheckError::VariableNotFound(Variable::new("y")))
    );
}

#[test]
fn closure_entry_names() {
    assert_eq!(generate_closure_entry_name("f"), "f_entry");
    assert_eq!(generate_closure_entry_name(""), "_entry");
    assert_ne!(generate_closure_entry_name("f"), generate_closure_entry_name("g"));
}

#[test]
fn ffi_function_types_keep_their_parts() {
    let ffi = FfiFunctionType::new("malloc", vec![float64(), Type::Index(0)], float64());
    assert_eq!(ffi.name(), "malloc");
    assert_eq!(ffi.arguments(), &[float64(), Type::Index(0)][..]);
    assert_eq!(ffi.result(), &float64());
}

#[test]
fn compile_configurations_hold_function_names() {
    let configuration = CompileConfiguration {
        malloc_function_name: "my_malloc".into(),
        realloc_function_name: "my_realloc".into(),
    };
    assert_eq!(configuration.malloc_function_name, "my_malloc");
    assert_eq!(configuration.realloc_function_name, "my_realloc");
}

#[test]
fn types_compare_structurally() {
    let list = Type::Algebraic(types::Algebraic::new(vec![types::Constructor::boxed(vec![
        Type::Index(0),
    ])]));
    assert!(list.equals(&list.clone()));
    assert!(!list.equals(&float64()));
    assert!(float64().is_primitive());
    assert!(!list.is_primitive());
}

#[test]
fn unfolding_replaces_recursive_references() {
    let list = types::Algebraic::new(vec![types::Constructor::boxed(vec![Type::Index(0)])]);
    let unfolded = list.unfold();
    assert_eq!(
        unfolded.constructors()[0].elements(),
        &[Type::Algebraic(list.clone())][..]
    );
    let flat = types::Algebraic::new(vec![types::Constructor::unboxed(vec![float64()])]);
    assert_eq!(flat.unfold(), flat);
}
