//! Type checking of modules.
use crate::ir::{
    view_expression, AlgebraicAlternativeV, ArgumentV, Case, DeclarationV, DefinitionV, Expression,
    ExpressionV, ForeignDeclarationV, FunctionDefinitionV, ModuleV, Primitive, PrimitiveAlternativeV,
    PrimitiveOperator, Variable, ConstructorRefV, definition_type,
};
use crate::ir::{
    lemma_view_algebraic_alternatives, lemma_view_expressions, lemma_view_function_definitions,
    lemma_view_primitive_alternatives, names, view_algebraic_alternatives, view_arguments,
    view_definitions, view_expressions, view_function_definitions, view_primitive_alternatives,
    Argument, Definition, FunctionDefinition, Module,
};

use crate::types::{
    self, lemma_view_constructors, lemma_view_types, unfold, view_types, ConstructorV, Type, TypeV,
};
use vstd::prelude::*;

verus! {

broadcast use vstd::std_specs::vec::group_vec_axioms;

/// Errors found by the type checker.
#[derive(Debug, PartialEq)]
pub enum TypeCheckError {
    FunctionExpected(Expression),
    NoAlternativeFound(Case),
    TypesNotMatched(Type, Type),
    VariableNotFound(Variable),
    WrongArgumentsLength(Expression),
}

pub enum TypeCheckErrorV {
    FunctionExpected(ExpressionV),
    NoAlternativeFound(ExpressionV),
    TypesNotMatched(TypeV, TypeV),
    VariableNotFound(Seq<char>),
    WrongArgumentsLength(ExpressionV),
}

impl View for TypeCheckError {
    type V = TypeCheckErrorV;

    open spec fn view(&self) -> TypeCheckErrorV {
        match self {
            TypeCheckError::FunctionExpected(e) => TypeCheckErrorV::FunctionExpected(e@),
            TypeCheckError::NoAlternativeFound(c) => TypeCheckErrorV::NoAlternativeFound(
                view_expression(Expression::Case(*c)),
            ),
            TypeCheckError::TypesNotMatched(a, b) => TypeCheckErrorV::TypesNotMatched(a@, b@),
            TypeCheckError::VariableNotFound(v) => TypeCheckErrorV::VariableNotFound(v.name@),
            TypeCheckError::WrongArgumentsLength(e) => TypeCheckErrorV::WrongArgumentsLength(e@),
        }
    }
}

/// How checking fails: with a type error, or by reaching a constructor whose
/// index lies outside its algebraic type (on which checking cannot go on).
pub enum Failure {
    Error(TypeCheckErrorV),
    ConstructorOutOfRange,
}

/// Typing environment: later bindings shadow earlier ones.
pub type Environment = Seq<(Seq<char>, TypeV)>;

pub open spec fn lookup(env: Environment, name: Seq<char>) -> Option<TypeV>
    decreases env.len(),
{
    if env.len() == 0 {
        None
    } else if env.last().0 == name {
        Some(env.last().1)
    } else {
        lookup(env.drop_last(), name)
    }
}

pub open spec fn view_environment(v: Seq<(String, Type)>) -> Environment {
    v.map_values(|p: (String, Type)| (p.0@, p.1@))
}

/// The bindings of the names to the types, pairwise, as far as both go.
pub open spec fn zip_bindings(names: Seq<Seq<char>>, types: Seq<TypeV>) -> Environment {
    Seq::new(
        if names.len() <= types.len() {
            names.len()
        } else {
            types.len()
        },
        |i: int| (names[i], types[i]),
    )
}

pub open spec fn argument_bindings(arguments: Seq<ArgumentV>) -> Environment {
    arguments.map_values(|a: ArgumentV| (a.name, a.type_))
}

pub open spec fn primitive_type(p: Primitive) -> types::Primitive {
    match p {
        Primitive::Float32(_) => types::Primitive::Float32,
        Primitive::Float64(_) => types::Primitive::Float64,
        Primitive::Integer8(_) => types::Primitive::Integer8,
        Primitive::Integer32(_) => types::Primitive::Integer32,
        Primitive::Integer64(_) => types::Primitive::Integer64,
    }
}

pub open spec fn is_comparison(o: PrimitiveOperator) -> bool {
    match o {
        PrimitiveOperator::Equal | PrimitiveOperator::NotEqual | PrimitiveOperator::GreaterThan
        | PrimitiveOperator::GreaterThanOrEqual | PrimitiveOperator::LessThan
        | PrimitiveOperator::LessThanOrEqual => true,
        _ => false,
    }
}

pub open spec fn equality(one: TypeV, other: TypeV) -> Result<(), Failure> {
    if one == other {
        Ok(())
    } else {
        Err(Failure::Error(TypeCheckErrorV::TypesNotMatched(one, other)))
    }
}

/// Joins the type of one more alternative with the type agreed so far.
pub open spec fn merge(agreed: Option<TypeV>, t: TypeV) -> Result<Option<TypeV>, Failure> {
    match agreed {
        Some(s) => if t == s {
            Ok(agreed)
        } else {
            Err(Failure::Error(TypeCheckErrorV::TypesNotMatched(t, s)))
        },
        None => Ok(Some(t)),
    }
}

pub open spec fn constructor_in_range(c: ConstructorRefV) -> bool {
    c.index < c.algebraic_type.len()
}

/// The payload types of a constructor, with recursive references unfolded.
pub open spec fn constructor_elements(c: ConstructorRefV) -> Seq<TypeV> {
    unfold(c.algebraic_type)[c.index as int].elements
}

pub open spec fn check_expression(e: ExpressionV, env: Environment) -> Result<TypeV, Failure>
    decreases e,
{
    match e {
        ExpressionV::Bitcast(x, t) => match check_expression(*x, env) {
            Ok(_) => Ok(t),
            Err(f) => Err(f),
        },
        ExpressionV::AlgebraicCase(argument, alternatives, default) => match check_expression(
            *argument,
            env,
        ) {
            Err(f) => Err(f),
            Ok(argument_type) => match check_algebraic_alternatives(
                alternatives,
                argument_type,
                env,
                None,
            ) {
                Err(f) => Err(f),
                Ok(agreed) => check_default(e, default, agreed, env),
            },
        },
        ExpressionV::PrimitiveCase(argument, alternatives, default) => match check_expression(
            *argument,
            env,
        ) {
            Err(f) => Err(f),
            Ok(argument_type) => match check_primitive_alternatives(
                alternatives,
                argument_type,
                env,
                None,
            ) {
                Err(f) => Err(f),
                Ok(agreed) => check_default(e, default, agreed, env),
            },
        },
        ExpressionV::ConstructorApplication(constructor, arguments) => {
            if !constructor_in_range(constructor) {
                Err(Failure::ConstructorOutOfRange)
            } else if arguments.len() != constructor_elements(constructor).len() {
                Err(Failure::Error(TypeCheckErrorV::WrongArgumentsLength(e)))
            } else {
                match check_arguments(arguments, constructor_elements(constructor), env) {
                    Err(f) => Err(f),
                    Ok(_) => Ok(TypeV::Algebraic(constructor.algebraic_type)),
                }
            }
        },
        ExpressionV::FunctionApplication(function, argument) => match check_expression(
            *function,
            env,
        ) {
            Err(f) => Err(f),
            Ok(TypeV::Function(argument_type, result_type)) => match check_expression(
                *argument,
                env,
            ) {
                Err(f) => Err(f),
                Ok(t) => match equality(t, *argument_type) {
                    Err(f) => Err(f),
                    Ok(_) => Ok(*result_type),
                },
            },
            Ok(_) => Err(Failure::Error(TypeCheckErrorV::FunctionExpected(*function))),
        },
        ExpressionV::LetRecursive(definitions, expression) => {
            let env = env + definitions.map_values(
                |d: FunctionDefinitionV| (d.name, definition_type(d)),
            );
            match check_function_definitions(definitions, env) {
                Err(f) => Err(f),
                Ok(_) => check_expression(*expression, env),
            }
        },
        ExpressionV::Let(name, type_, bound, expression) => match check_expression(*bound, env) {
            Err(f) => Err(f),
            Ok(t) => match equality(t, type_) {
                Err(f) => Err(f),
                Ok(_) => check_expression(*expression, env.push((name, type_))),
            },
        },
        ExpressionV::Primitive(p) => Ok(TypeV::Primitive(primitive_type(p))),
        ExpressionV::PrimitiveOperation(operator, lhs, rhs) => match check_expression(*lhs, env) {
            Err(f) => Err(f),
            Ok(lhs_type) => match check_expression(*rhs, env) {
                Err(f) => Err(f),
                Ok(rhs_type) => if !(lhs_type is Primitive) || !(rhs_type is Primitive) || lhs_type
                    != rhs_type {
                    Err(Failure::Error(TypeCheckErrorV::TypesNotMatched(lhs_type, rhs_type)))
                } else if is_comparison(operator) {
                    Ok(TypeV::Primitive(types::Primitive::Integer8))
                } else {
                    Ok(lhs_type)
                },
            },
        },
        ExpressionV::Variable(name) => match lookup(env, name) {
            Some(t) => Ok(t),
            None => Err(Failure::Error(TypeCheckErrorV::VariableNotFound(name))),
        },
    }
}

/// Joins the default alternative, if any, with the alternatives' agreed
/// type; a case without any alternative fails.
pub open spec fn check_default(
    case: ExpressionV,
    default: Option<Box<ExpressionV>>,
    agreed: Option<TypeV>,
    env: Environment,
) -> Result<TypeV, Failure>
    decreases default,
{
    let joined = match default {
        Some(d) => match check_expression(*d, env) {
            Err(f) => Err(f),
            Ok(t) => merge(agreed, t),
        },
        None => Ok(agreed),
    };
    match joined {
        Err(f) => Err(f),
        Ok(Some(t)) => Ok(t),
        Ok(None) => Err(Failure::Error(TypeCheckErrorV::NoAlternativeFound(case))),
    }
}

pub open spec fn check_algebraic_alternatives(
    alternatives: Seq<AlgebraicAlternativeV>,
    argument_type: TypeV,
    env: Environment,
    agreed: Option<TypeV>,
) -> Result<Option<TypeV>, Failure>
    decreases alternatives,
{
    if alternatives.len() == 0 {
        Ok(agreed)
    } else {
        let a = alternatives[0];
        match equality(TypeV::Algebraic(a.constructor.algebraic_type), argument_type) {
            Err(f) => Err(f),
            Ok(_) => if !constructor_in_range(a.constructor) {
                Err(Failure::ConstructorOutOfRange)
            } else {
                match check_expression(
                    a.expression,
                    env + zip_bindings(a.element_names, constructor_elements(a.constructor)),
                ) {
                    Err(f) => Err(f),
                    Ok(t) => match merge(agreed, t) {
                        Err(f) => Err(f),
                        Ok(agreed) => check_algebraic_alternatives(
                            alternatives.subrange(1, alternatives.len() as int),
                            argument_type,
                            env,
                            agreed,
                        ),
                    },
                }
            },
        }
    }
}

pub open spec fn check_primitive_alternatives(
    alternatives: Seq<PrimitiveAlternativeV>,
    argument_type: TypeV,
    env: Environment,
    agreed: Option<TypeV>,
) -> Result<Option<TypeV>, Failure>
    decreases alternatives,
{
    if alternatives.len() == 0 {
        Ok(agreed)
    } else {
        let a = alternatives[0];
        match equality(TypeV::Primitive(primitive_type(a.primitive)), argument_type) {
            Err(f) => Err(f),
            Ok(_) => match check_expression(a.expression, env) {
                Err(f) => Err(f),
                Ok(t) => match merge(agreed, t) {
                    Err(f) => Err(f),
                    Ok(agreed) => check_primitive_alternatives(
                        alternatives.subrange(1, alternatives.len() as int),
                        argument_type,
                        env,
                        agreed,
                    ),
                },
            },
        }
    }
}

/// Checks constructor arguments against the payload types, pairwise.
pub open spec fn check_arguments(
    arguments: Seq<ExpressionV>,
    elements: Seq<TypeV>,
    env: Environment,
) -> Result<(), Failure>
    decreases arguments,
{
    if arguments.len() == 0 {
        Ok(())
    } else {
        match check_expression(arguments[0], env) {
            Err(f) => Err(f),
            Ok(t) => match equality(t, elements[0]) {
                Err(f) => Err(f),
                Ok(_) => check_arguments(
                    arguments.subrange(1, arguments.len() as int),
                    elements.subrange(1, elements.len() as int),
                    env,
                ),
            },
        }
    }
}

pub open spec fn check_function_definition(
    d: FunctionDefinitionV,
    env: Environment,
) -> Result<(), Failure>
    decreases d,
{
    match check_expression(
        d.body,
        env + argument_bindings(d.environment) + argument_bindings(d.arguments),
    ) {
        Err(f) => Err(f),
        Ok(t) => equality(t, d.result_type),
    }
}

pub open spec fn check_function_definitions(
    definitions: Seq<FunctionDefinitionV>,
    env: Environment,
) -> Result<(), Failure>
    decreases definitions,
{
    if definitions.len() == 0 {
        Ok(())
    } else {
        match check_function_definition(definitions[0], env) {
            Err(f) => Err(f),
            Ok(_) => check_function_definitions(
                definitions.subrange(1, definitions.len() as int),
                env,
            ),
        }
    }
}

pub open spec fn check_definition(d: DefinitionV, env: Environment) -> Result<(), Failure> {
    match d {
        DefinitionV::Function(f) => check_function_definition(f, env),
        DefinitionV::Value(v) => match check_expression(v.body, env) {
            Err(f) => Err(f),
            Ok(t) => equality(t, v.type_),
        },
    }
}

pub open spec fn check_definitions(definitions: Seq<DefinitionV>, env: Environment) -> Result<
    (),
    Failure,
>
    decreases definitions.len(),
{
    if definitions.len() == 0 {
        Ok(())
    } else {
        match check_definition(definitions[0], env) {
            Err(f) => Err(f),
            Ok(_) => check_definitions(definitions.subrange(1, definitions.len() as int), env),
        }
    }
}

pub open spec fn global_type(d: DefinitionV) -> TypeV {
    match d {
        DefinitionV::Function(f) => definition_type(f),
        DefinitionV::Value(v) => v.type_,
    }
}

pub open spec fn global_name(d: DefinitionV) -> Seq<char> {
    match d {
        DefinitionV::Function(f) => f.name,
        DefinitionV::Value(v) => v.name,
    }
}

/// The environment of a module: foreign declarations, declarations and
/// definitions, in that order.
pub open spec fn module_environment(m: ModuleV) -> Environment {
    m.foreign_declarations.map_values(|d: ForeignDeclarationV| (d.name, d.type_))
        + m.declarations.map_values(|d: DeclarationV| (d.name, d.type_))
        + m.definitions.map_values(|d: DefinitionV| (global_name(d), global_type(d)))
}

pub open spec fn check_module(m: ModuleV) -> Result<(), Failure> {
    check_definitions(m.definitions, module_environment(m))
}


// ---------------------------------------------------------------------------
// The checker

/// A run of the checker that does not stop at an out-of-range constructor.
pub open spec fn view_constructor_ref_of(c: crate::ir::Constructor) -> ConstructorRefV {
    crate::ir::view_constructor_ref(c)
}

pub open spec fn completes<T>(r: Result<T, Failure>) -> bool {
    !(r matches Err(Failure::ConstructorOutOfRange))
}

/// The result of the checker agrees with its specification.
pub open spec fn agrees<T: View, U>(r: Result<T, TypeCheckError>, s: Result<U, Failure>) -> bool
    where T: View<V = U>
{
    match (r, s) {
        (Ok(t), Ok(u)) => t@ == u,
        (Err(e), Err(Failure::Error(f))) => e@ == f,
        _ => false,
    }
}

pub open spec fn agrees_unit(r: Result<(), TypeCheckError>, s: Result<(), Failure>) -> bool {
    match (r, s) {
        (Ok(_), Ok(_)) => true,
        (Err(e), Err(Failure::Error(f))) => e@ == f,
        _ => false,
    }
}

pub open spec fn view_option(o: Option<Type>) -> Option<TypeV> {
    match o {
        Some(t) => Some(t@),
        None => None,
    }
}

pub open spec fn agrees_option(r: Option<Type>, s: Option<TypeV>) -> bool {
    match (r, s) {
        (Some(t), Some(u)) => t@ == u,
        (None, None) => true,
        _ => false,
    }
}

/// The type bound to a name in the variables, the latest binding first.
pub(crate) fn lookup_type(variables: &Vec<(String, Type)>, name: &String) -> (r: Option<Type>)
    ensures
        view_option(r) == lookup(view_environment(variables@), name@),
{
    let ghost env = view_environment(variables@);
    let mut i = variables.len();
    assert(env.subrange(0, i as int) =~= env);
    while i > 0
        invariant
            i <= variables@.len(),
            env == view_environment(variables@),
            lookup(env, name@) == lookup(env.subrange(0, i as int), name@),
        decreases i,
    {
        let ghost prefix = env.subrange(0, i as int);
        assert(prefix.drop_last() =~= env.subrange(0, i - 1));
        if variables[i - 1].0 == *name {
            return Some(variables[i - 1].1.clone());
        }
        i = i - 1;
    }
    None
}

pub(crate) fn clone_variables(v: &Vec<(String, Type)>) -> (r: Vec<(String, Type)>)
    ensures
        view_environment(r@) == view_environment(v@),
{
    let mut r: Vec<(String, Type)> = Vec::new();
    for i in 0..v.len()
        invariant
            i <= v@.len(),
            r@.len() == i,
            forall|j: int|
                0 <= j < i ==> (#[trigger] r@[j]).0@ == v@[j].0@ && r@[j].1@ == v@[j].1@,
    {
        let (name, type_) = &v[i];
        r.push((name.clone(), type_.clone()));
    }
    assert(view_environment(r@) =~= view_environment(v@));
    r
}

pub(crate) fn bind_arguments(variables: &mut Vec<(String, Type)>, arguments: &Vec<Argument>)
    ensures
        view_environment(final(variables)@) == view_environment(old(variables)@) + argument_bindings(
            view_arguments(arguments@),
        ),
{
    let ghost initial = view_environment(variables@);
    let ghost bindings = argument_bindings(view_arguments(arguments@));
    for i in 0..arguments.len()
        invariant
            i <= arguments@.len(),
            bindings.len() == arguments@.len(),
            bindings == argument_bindings(view_arguments(arguments@)),
            view_environment(variables@) == initial + bindings.subrange(0, i as int),
    {
        let argument = &arguments[i];
        let ghost before = variables@;
        variables.push((argument.name.clone(), argument.type_.clone()));
        assert(variables@ == before.push(variables@.last()));
        assert(view_environment(variables@) =~= view_environment(before).push(bindings[i as int]));
        assert(view_environment(variables@) =~= initial + bindings.subrange(0, i + 1));
    }
    assert(bindings.subrange(0, arguments@.len() as int) =~= bindings);
}

pub(crate) fn bind_elements(variables: &mut Vec<(String, Type)>, names_: &Vec<String>, types_: &Vec<Type>)
    ensures
        view_environment(final(variables)@) == view_environment(old(variables)@) + zip_bindings(
            names(names_@),
            view_types(types_@),
        ),
{
    proof {
        lemma_view_types(types_@);
    }
    let ghost initial = view_environment(variables@);
    let ghost bindings = zip_bindings(names(names_@), view_types(types_@));
    let n = if names_.len() <= types_.len() {
        names_.len()
    } else {
        types_.len()
    };
    for i in 0..n
        invariant
            n == bindings.len(),
            n <= names_@.len(),
            n <= types_@.len(),
            bindings == zip_bindings(names(names_@), view_types(types_@)),
            view_types(types_@).len() == types_@.len(),
            forall|j: int| 0 <= j < types_@.len() ==> #[trigger] view_types(types_@)[j] == types_@[j]@,
            view_environment(variables@) == initial + bindings.subrange(0, i as int),
    {
        let ghost before = variables@;
        variables.push((names_[i].clone(), types_[i].clone()));
        assert(view_environment(variables@) =~= view_environment(before).push(bindings[i as int]));
        assert(view_environment(variables@) =~= initial + bindings.subrange(0, i + 1));
    }
    assert(bindings.subrange(0, n as int) =~= bindings);
}

/// Type checker of modules.
pub struct TypeChecker {}

impl TypeChecker {
    pub fn new() -> (r: Self)
        ensures
            r == (TypeChecker {}),
    {
        TypeChecker {}
    }

    pub fn check_primitive(&self, primitive: &Primitive) -> (r: types::Primitive)
        ensures
            r == primitive_type(*primitive),
    {
        match primitive {
            Primitive::Float32(_) => types::Primitive::Float32,
            Primitive::Float64(_) => types::Primitive::Float64,
            Primitive::Integer8(_) => types::Primitive::Integer8,
            Primitive::Integer32(_) => types::Primitive::Integer32,
            Primitive::Integer64(_) => types::Primitive::Integer64,
        }
    }

    pub fn check_equality(&self, one: &Type, other: &Type) -> (r: Result<(), TypeCheckError>)
        ensures
            agrees_unit(r, equality(one@, other@)),
    {
        if one.equals(other) {
            Ok(())
        } else {
            Err(TypeCheckError::TypesNotMatched(one.clone(), other.clone()))
        }
    }

    pub fn check_variable(&self, variable: &Variable, variables: &Vec<(String, Type)>) -> (r:
        Result<Type, TypeCheckError>)
        ensures
            agrees(
                r,
                check_expression(
                    ExpressionV::Variable(variable.name@),
                    view_environment(variables@),
                ),
            ),
    {
        match lookup_type(variables, &variable.name) {
            Some(t) => Ok(t),
            None => Err(TypeCheckError::VariableNotFound(variable.clone())),
        }
    }

    fn merge(&self, agreed: Option<Type>, t: Type) -> (r: Result<Option<Type>, TypeCheckError>)
        ensures
            match (r, merge(view_option(agreed), t@)) {
                (Ok(a), Ok(b)) => agrees_option(a, b),
                (Err(e), Err(Failure::Error(f))) => e@ == f,
                _ => false,
            },
    {
        match agreed {
            Some(s) => match self.check_equality(&t, &s) {
                Ok(_) => Ok(Some(s)),
                Err(e) => Err(e),
            },
            None => Ok(Some(t)),
        }
    }

    pub fn check_expression(&self, expression: &Expression, variables: &Vec<(String, Type)>) -> (r:
        Result<Type, TypeCheckError>)
        requires
            completes(check_expression(expression@, view_environment(variables@))),
        ensures
            agrees(r, check_expression(expression@, view_environment(variables@))),
        decreases expression, 1nat,
    {
        match expression {
            Expression::Bitcast(b) => match self.check_expression(&b.expression, variables) {
                Ok(_) => Ok(b.type_.clone()),
                Err(e) => Err(e),
            },
            Expression::Case(c) => self.check_case(c, variables),
            Expression::ConstructorApplication(_) => self.check_constructor_application(
                expression,
                variables,
            ),
            Expression::FunctionApplication(a) => match self.check_expression(
                &a.function,
                variables,
            ) {
                Err(e) => Err(e),
                Ok(function_type) => match &function_type {
                    Type::Function(f) => match self.check_expression(&a.argument, variables) {
                        Err(e) => Err(e),
                        Ok(t) => match self.check_equality(&t, &f.argument) {
                            Err(e) => Err(e),
                            Ok(_) => Ok((*f.result).clone()),
                        },
                    },
                    _ => Err(TypeCheckError::FunctionExpected((*a.function).clone())),
                },
            },
            Expression::LetRecursive(l) => {
                let ghost env = view_environment(variables@);
                let ghost definitions = view_function_definitions(l.definitions@);
                let mut inner = clone_variables(variables);
                proof {
                    lemma_view_function_definitions(l.definitions@);
                }
                assert(definitions.subrange(0, 0) =~= Seq::<FunctionDefinitionV>::empty());
                for i in 0..l.definitions.len()
                    invariant
                        i <= l.definitions@.len(),
                        definitions == view_function_definitions(l.definitions@),
                        definitions.len() == l.definitions@.len(),
                        forall|j: int|
                            0 <= j < l.definitions@.len() ==> #[trigger] definitions[j]
                                == l.definitions@[j]@,
                        view_environment(inner@) == env + definitions.subrange(0, i as int).map_values(
                            |d: FunctionDefinitionV| (d.name, definition_type(d)),
                        ),
                {
                    proof {
                        lemma_view_function_definitions(l.definitions@);
                    }
                    let definition = &l.definitions[i];
                    let ghost before = view_environment(inner@);
                    inner.push((definition.name.clone(), definition.type_()));
                    assert(view_environment(inner@) =~= before.push(
                        (definitions[i as int].name, definition_type(definitions[i as int])),
                    ));
                    assert(view_environment(inner@) =~= env + definitions.subrange(
                        0,
                        i + 1,
                    ).map_values(|d: FunctionDefinitionV| (d.name, definition_type(d))));
                }
                proof {
                    lemma_view_function_definitions(l.definitions@);
                    assert(definitions.subrange(0, l.definitions@.len() as int) =~= definitions);
                }
                match self.check_function_definitions(&l.definitions, &inner) {
                    Err(e) => Err(e),
                    Ok(_) => self.check_expression(&l.expression, &inner),
                }
            },
            Expression::Let(l) => match self.check_expression(&l.bound_expression, variables) {
                Err(e) => Err(e),
                Ok(t) => match self.check_equality(&t, &l.type_) {
                    Err(e) => Err(e),
                    Ok(_) => {
                        let mut inner = clone_variables(variables);
                        let ghost before = view_environment(inner@);
                        inner.push((l.name.clone(), l.type_.clone()));
                        assert(view_environment(inner@) =~= before.push((l.name@, l.type_@)));
                        self.check_expression(&l.expression, &inner)
                    },
                },
            },
            Expression::Primitive(p) => Ok(Type::Primitive(self.check_primitive(p))),
            Expression::PrimitiveOperation(o) => match self.check_expression(&o.lhs, variables) {
                Err(e) => Err(e),
                Ok(lhs_type) => match self.check_expression(&o.rhs, variables) {
                    Err(e) => Err(e),
                    Ok(rhs_type) => {
                        if !lhs_type.is_primitive() || !rhs_type.is_primitive()
                            || !lhs_type.equals(&rhs_type) {
                            Err(TypeCheckError::TypesNotMatched(lhs_type, rhs_type))
                        } else {
                            match o.operator {
                                PrimitiveOperator::Equal
                                | PrimitiveOperator::NotEqual
                                | PrimitiveOperator::GreaterThan
                                | PrimitiveOperator::GreaterThanOrEqual
                                | PrimitiveOperator::LessThan
                                | PrimitiveOperator::LessThanOrEqual => Ok(
                                    Type::Primitive(types::Primitive::Integer8),
                                ),
                                _ => Ok(lhs_type),
                            }
                        }
                    },
                },
            },
            Expression::Variable(v) => self.check_variable(v, variables),
        }
    }

    fn check_constructor_application(
        &self,
        expression: &Expression,
        variables: &Vec<(String, Type)>,
    ) -> (r: Result<Type, TypeCheckError>)
        requires
            expression is ConstructorApplication,
            completes(check_expression(expression@, view_environment(variables@))),
        ensures
            agrees(r, check_expression(expression@, view_environment(variables@))),
        decreases expression, 0nat,
    {
        match expression {
            Expression::ConstructorApplication(a) => {
                let unfolded = a.constructor.algebraic_type.unfold();
                proof {
                    crate::types::lemma_substitute_constructors(
                        a.constructor.algebraic_type@,
                        0,
                        a.constructor.algebraic_type@,
                    );
                    lemma_view_constructors(unfolded.constructors@);
                    lemma_view_constructors(a.constructor.algebraic_type.constructors@);
                    lemma_view_expressions(a.arguments@);
                }
                let elements = &unfolded.constructors[a.constructor.index as usize].elements;
                proof {
                    lemma_view_types(elements@);
                }
                let ghost c = view_constructor_ref_of(a.constructor);
                assert(constructor_in_range(c));
                assert(constructor_elements(c) == view_types(elements@));
                if a.arguments.len() != elements.len() {
                    let r = Err(TypeCheckError::WrongArgumentsLength(expression.clone()));
                    assert(view_expressions(a.arguments@).len() != constructor_elements(c).len());
                    return r;
                }
                match self.check_arguments(&a.arguments, elements, variables) {
                    Ok(_) => Ok(Type::Algebraic(a.constructor.algebraic_type.clone())),
                    Err(e) => Err(e),
                }
                        },
            _ => {
                proof {
                    assert(false);
                }
                Err(TypeCheckError::WrongArgumentsLength(expression.clone()))
            },
        }
    }

    fn check_arguments(
        &self,
        arguments: &Vec<Expression>,
        elements: &Vec<Type>,
        variables: &Vec<(String, Type)>,
    ) -> (r: Result<(), TypeCheckError>)
        requires
            arguments@.len() == elements@.len(),
            completes(
                check_arguments(
                    view_expressions(arguments@),
                    view_types(elements@),
                    view_environment(variables@),
                ),
            ),
        ensures
            agrees_unit(
                r,
                check_arguments(
                    view_expressions(arguments@),
                    view_types(elements@),
                    view_environment(variables@),
                ),
            ),
        decreases arguments, 0nat,
    {
        let ghost env = view_environment(variables@);
        let ghost args = view_expressions(arguments@);
        let ghost elems = view_types(elements@);
        proof {
            lemma_view_expressions(arguments@);
            lemma_view_types(elements@);
        }
        let n = arguments.len();
        assert(args.subrange(0, n as int) =~= args);
        assert(elems.subrange(0, n as int) =~= elems);
        for i in 0..n
            invariant
                n == arguments@.len(),
                n == elements@.len(),
                args == view_expressions(arguments@),
                elems == view_types(elements@),
                args.len() == n,
                elems.len() == n,
                forall|j: int| 0 <= j < n ==> #[trigger] args[j] == arguments@[j]@,
                forall|j: int| 0 <= j < n ==> #[trigger] elems[j] == elements@[j]@,
                env == view_environment(variables@),
                check_arguments(args, elems, env) == check_arguments(
                    args.subrange(i as int, n as int),
                    elems.subrange(i as int, n as int),
                    env,
                ),
                completes(check_arguments(args, elems, env)),
        {
            let ghost rest_args = args.subrange(i as int, n as int);
            let ghost rest_elems = elems.subrange(i as int, n as int);
            assert(rest_args[0] == args[i as int]);
            assert(rest_elems[0] == elems[i as int]);
            assert(rest_args.subrange(1, rest_args.len() as int) =~= args.subrange(i + 1, n as int));
            assert(rest_elems.subrange(1, rest_elems.len() as int) =~= elems.subrange(
                i + 1,
                n as int,
            ));
            let t = match self.check_expression(&arguments[i], variables) {
                Ok(t) => t,
                Err(e) => return Err(e),
            };
            match self.check_equality(&t, &elements[i]) {
                Ok(_) => {},
                Err(e) => return Err(e),
            }
        }
        Ok(())
    }

    pub fn check_case(&self, case: &Case, variables: &Vec<(String, Type)>) -> (r: Result<
        Type,
        TypeCheckError,
    >)
        requires
            completes(
                check_expression(view_expression(Expression::Case(*case)), view_environment(variables@)),
            ),
        ensures
            agrees(
                r,
                check_expression(view_expression(Expression::Case(*case)), view_environment(variables@)),
            ),
        decreases case, 0nat,
    {
        match case {
            Case::Algebraic(c) => {
                let argument_type = match self.check_expression(&c.argument, variables) {
                    Ok(t) => t,
                    Err(e) => return Err(e),
                };
                let agreed = match self.check_algebraic_alternatives(
                    &c.alternatives,
                    &argument_type,
                    variables,
                ) {
                    Ok(a) => a,
                    Err(e) => return Err(e),
                };
                self.check_default(case, &c.default_alternative, agreed, variables)
            },
            Case::Primitive(c) => {
                let argument_type = match self.check_expression(&c.argument, variables) {
                    Ok(t) => t,
                    Err(e) => return Err(e),
                };
                let agreed = match self.check_primitive_alternatives(
                    &c.alternatives,
                    &argument_type,
                    variables,
                ) {
                    Ok(a) => a,
                    Err(e) => return Err(e),
                };
                self.check_default(case, &c.default_alternative, agreed, variables)
            },
        }
    }

    fn check_algebraic_alternatives(
        &self,
        alternatives: &Vec<crate::ir::AlgebraicAlternative>,
        argument_type: &Type,
        variables: &Vec<(String, Type)>,
    ) -> (r: Result<Option<Type>, TypeCheckError>)
        requires
            completes(
                check_algebraic_alternatives(
                    view_algebraic_alternatives(alternatives@),
                    argument_type@,
                    view_environment(variables@),
                    None,
                ),
            ),
        ensures
            match (
                r,
                check_algebraic_alternatives(
                    view_algebraic_alternatives(alternatives@),
                    argument_type@,
                    view_environment(variables@),
                    None,
                ),
            ) {
                (Ok(a), Ok(b)) => agrees_option(a, b),
                (Err(e), Err(Failure::Error(f))) => e@ == f,
                _ => false,
            },
        decreases alternatives, 0nat,
    {
        let ghost env = view_environment(variables@);
        let ghost alts = view_algebraic_alternatives(alternatives@);
        let ghost full = check_algebraic_alternatives(alts, argument_type@, env, None);
        proof {
            lemma_view_algebraic_alternatives(alternatives@);
        }
        let n = alternatives.len();
        let mut agreed: Option<Type> = None;
        assert(alts.subrange(0, n as int) =~= alts);
        for i in 0..n
            invariant
                n == alternatives@.len(),
                alts == view_algebraic_alternatives(alternatives@),
                alts.len() == n,
                forall|j: int| 0 <= j < n ==> #[trigger] alts[j] == crate::ir::view_algebraic_alternative(
                    alternatives@[j],
                ),
                env == view_environment(variables@),
                full == check_algebraic_alternatives(alts, argument_type@, env, None),
                full == check_algebraic_alternatives(
                    alts.subrange(i as int, n as int),
                    argument_type@,
                    env,
                    view_option(agreed),
                ),
                completes(full),
        {
            let ghost rest = alts.subrange(i as int, n as int);
            assert(rest[0] == alts[i as int]);
            assert(rest.subrange(1, rest.len() as int) =~= alts.subrange(i + 1, n as int));
            let alternative = &alternatives[i];
            match self.check_equality(
                &Type::Algebraic(alternative.constructor.algebraic_type.clone()),
                argument_type,
            ) {
                Err(e) => return Err(e),
                Ok(_) => {},
            }
            let unfolded = alternative.constructor.algebraic_type.unfold();
            proof {
                crate::types::lemma_substitute_constructors(
                    alternative.constructor.algebraic_type@,
                    0,
                    alternative.constructor.algebraic_type@,
                );
                lemma_view_constructors(unfolded.constructors@);
                lemma_view_constructors(alternative.constructor.algebraic_type.constructors@);
            }
            let mut inner = clone_variables(variables);
            bind_elements(
                &mut inner,
                &alternative.element_names,
                &unfolded.constructors[alternative.constructor.index as usize].elements,
            );
            proof {
                let a = alts[i as int];
                assert(a == crate::ir::view_algebraic_alternative(alternatives@[i as int]));
                assert(a.expression == alternative.expression@);
                assert(constructor_in_range(a.constructor));
                assert(view_environment(inner@) == env + zip_bindings(
                    a.element_names,
                    constructor_elements(a.constructor),
                ));
            }
            let t = match self.check_expression(&alternative.expression, &inner) {
                Ok(t) => t,
                Err(e) => return Err(e),
            };
            agreed = match self.merge(agreed, t) {
                Ok(a) => a,
                Err(e) => return Err(e),
            };
        }
        Ok(agreed)
    }

    fn check_primitive_alternatives(
        &self,
        alternatives: &Vec<crate::ir::PrimitiveAlternative>,
        argument_type: &Type,
        variables: &Vec<(String, Type)>,
    ) -> (r: Result<Option<Type>, TypeCheckError>)
        requires
            completes(
                check_primitive_alternatives(
                    view_primitive_alternatives(alternatives@),
                    argument_type@,
                    view_environment(variables@),
                    None,
                ),
            ),
        ensures
            match (
                r,
                check_primitive_alternatives(
                    view_primitive_alternatives(alternatives@),
                    argument_type@,
                    view_environment(variables@),
                    None,
                ),
            ) {
                (Ok(a), Ok(b)) => agrees_option(a, b),
                (Err(e), Err(Failure::Error(f))) => e@ == f,
                _ => false,
            },
        decreases alternatives, 0nat,
    {
        let ghost env = view_environment(variables@);
        let ghost alts = view_primitive_alternatives(alternatives@);
        let ghost full = check_primitive_alternatives(alts, argument_type@, env, None);
        proof {
            lemma_view_primitive_alternatives(alternatives@);
        }
        let n = alternatives.len();
        let mut agreed: Option<Type> = None;
        assert(alts.subrange(0, n as int) =~= alts);
        for i in 0..n
            invariant
                n == alternatives@.len(),
                alts == view_primitive_alternatives(alternatives@),
                alts.len() == n,
                forall|j: int| 0 <= j < n ==> #[trigger] alts[j] == crate::ir::view_primitive_alternative(
                    alternatives@[j],
                ),
                env == view_environment(variables@),
                full == check_primitive_alternatives(alts, argument_type@, env, None),
                full == check_primitive_alternatives(
                    alts.subrange(i as int, n as int),
                    argument_type@,
                    env,
                    view_option(agreed),
                ),
                completes(full),
        {
            let ghost rest = alts.subrange(i as int, n as int);
            assert(rest[0] == alts[i as int]);
            assert(rest.subrange(1, rest.len() as int) =~= alts.subrange(i + 1, n as int));
            let alternative = &alternatives[i];
            match self.check_equality(
                &Type::Primitive(self.check_primitive(&alternative.primitive)),
                argument_type,
            ) {
                Err(e) => return Err(e),
                Ok(_) => {},
            }
            let t = match self.check_expression(&alternative.expression, variables) {
                Ok(t) => t,
                Err(e) => return Err(e),
            };
            agreed = match self.merge(agreed, t) {
                Ok(a) => a,
                Err(e) => return Err(e),
            };
        }
        Ok(agreed)
    }

    fn check_function_definition(
        &self,
        definition: &FunctionDefinition,
        variables: &Vec<(String, Type)>,
    ) -> (r: Result<(), TypeCheckError>)
        requires
            completes(check_function_definition(definition@, view_environment(variables@))),
        ensures
            agrees_unit(r, check_function_definition(definition@, view_environment(variables@))),
        decreases definition, 0nat,
    {
        let mut inner = clone_variables(variables);
        bind_arguments(&mut inner, &definition.environment);
        bind_arguments(&mut inner, &definition.arguments);
        match self.check_expression(&definition.body, &inner) {
            Err(e) => Err(e),
            Ok(t) => self.check_equality(&t, &definition.result_type),
        }
    }

    fn check_function_definitions(
        &self,
        definitions: &Vec<FunctionDefinition>,
        variables: &Vec<(String, Type)>,
    ) -> (r: Result<(), TypeCheckError>)
        requires
            completes(
                check_function_definitions(
                    view_function_definitions(definitions@),
                    view_environment(variables@),
                ),
            ),
        ensures
            agrees_unit(
                r,
                check_function_definitions(
                    view_function_definitions(definitions@),
                    view_environment(variables@),
                ),
            ),
        decreases definitions, 0nat,
    {
        let ghost env = view_environment(variables@);
        let ghost defs = view_function_definitions(definitions@);
        proof {
            lemma_view_function_definitions(definitions@);
        }
        let n = definitions.len();
        assert(defs.subrange(0, n as int) =~= defs);
        for i in 0..n
            invariant
                n == definitions@.len(),
                defs == view_function_definitions(definitions@),
                defs.len() == n,
                forall|j: int| 0 <= j < n ==> #[trigger] defs[j] == definitions@[j]@,
                env == view_environment(variables@),
                check_function_definitions(defs, env) == check_function_definitions(
                    defs.subrange(i as int, n as int),
                    env,
                ),
                completes(check_function_definitions(defs, env)),
        {
            let ghost rest = defs.subrange(i as int, n as int);
            assert(rest[0] == defs[i as int]);
            assert(rest.subrange(1, rest.len() as int) =~= defs.subrange(i + 1, n as int));
            match self.check_function_definition(&definitions[i], variables) {
                Err(e) => return Err(e),
                Ok(_) => {},
            }
        }
        Ok(())
    }

    fn check_definition(&self, definition: &Definition, variables: &Vec<(String, Type)>) -> (r:
        Result<(), TypeCheckError>)
        requires
            completes(check_definition(definition@, view_environment(variables@))),
        ensures
            agrees_unit(r, check_definition(definition@, view_environment(variables@))),
    {
        match definition {
            Definition::FunctionDefinition(f) => self.check_function_definition(f, variables),
            Definition::ValueDefinition(v) => match self.check_expression(&v.body, variables) {
                Err(e) => Err(e),
                Ok(t) => self.check_equality(&t, &v.type_),
            },
        }
    }

    /// Checks every definition of a module against the types of the module's
    /// globals.
    pub fn check(&self, module: &Module) -> (r: Result<(), TypeCheckError>)
        requires
            completes(check_module(module@)),
        ensures
            agrees_unit(r, check_module(module@)),
    {
        let ghost m = module@;
        let mut variables: Vec<(String, Type)> = Vec::new();
        let ghost foreign = m.foreign_declarations.map_values(
            |d: ForeignDeclarationV| (d.name, d.type_),
        );
        let ghost declared = m.declarations.map_values(|d: DeclarationV| (d.name, d.type_));
        let ghost defined = m.definitions.map_values(
            |d: DefinitionV| (global_name(d), global_type(d)),
        );
        for i in 0..module.foreign_declarations.len()
            invariant
                m == module@,
                foreign == m.foreign_declarations.map_values(
                    |d: ForeignDeclarationV| (d.name, d.type_),
                ),
                i <= module.foreign_declarations@.len(),
                view_environment(variables@) == foreign.subrange(0, i as int),
        {
            let d = &module.foreign_declarations[i];
            let ghost before = view_environment(variables@);
            variables.push((d.name.clone(), Type::Function(d.type_.clone())));
            assert(view_environment(variables@) =~= before.push(foreign[i as int]));
            assert(view_environment(variables@) =~= foreign.subrange(0, i + 1));
        }
        assert(foreign.subrange(0, foreign.len() as int) =~= foreign);
        for i in 0..module.declarations.len()
            invariant
                m == module@,
                declared == m.declarations.map_values(|d: DeclarationV| (d.name, d.type_)),
                i <= module.declarations@.len(),
                view_environment(variables@) == foreign + declared.subrange(0, i as int),
        {
            let d = &module.declarations[i];
            let ghost before = view_environment(variables@);
            variables.push((d.name.clone(), Type::Function(d.type_.clone())));
            assert(view_environment(variables@) =~= before.push(declared[i as int]));
            assert(view_environment(variables@) =~= foreign + declared.subrange(0, i + 1));
        }
        assert(declared.subrange(0, declared.len() as int) =~= declared);
        for i in 0..module.definitions.len()
            invariant
                m == module@,
                defined == m.definitions.map_values(
                    |d: DefinitionV| (global_name(d), global_type(d)),
                ),
                i <= module.definitions@.len(),
                view_environment(variables@) == foreign + declared + defined.subrange(0, i as int),
        {
            let d = &module.definitions[i];
            let ghost before = view_environment(variables@);
            match d {
                Definition::FunctionDefinition(f) => {
                    variables.push((f.name.clone(), f.type_()));
                },
                Definition::ValueDefinition(v) => {
                    variables.push((v.name.clone(), v.type_.clone()));
                },
            }
            assert(view_environment(variables@) =~= before.push(defined[i as int]));
            assert(view_environment(variables@) =~= foreign + declared + defined.subrange(0, i + 1));
        }
        assert(defined.subrange(0, defined.len() as int) =~= defined);
        assert(view_environment(variables@) == module_environment(m));
        let ghost env = module_environment(m);
        let ghost defs = m.definitions;
        let n = module.definitions.len();
        assert(defs.subrange(0, n as int) =~= defs);
        for i in 0..n
            invariant
                n == module.definitions@.len(),
                m == module@,
                defs == m.definitions,
                env == view_environment(variables@),
                env == module_environment(m),
                check_module(m) == check_definitions(defs.subrange(i as int, n as int), env),
                completes(check_module(m)),
        {
            let ghost rest = defs.subrange(i as int, n as int);
            assert(rest[0] == defs[i as int]);
            assert(rest.subrange(1, rest.len() as int) =~= defs.subrange(i + 1, n as int));
            match self.check_definition(&module.definitions[i], &variables) {
                Err(e) => return Err(e),
                Ok(_) => {},
            }
        }
        Ok(())
    }

    fn check_default(
        &self,
        case: &Case,
        default: &Option<Box<Expression>>,
        agreed: Option<Type>,
        variables: &Vec<(String, Type)>,
    ) -> (r: Result<Type, TypeCheckError>)
        requires
            completes(
                check_default(
                    view_expression(Expression::Case(*case)),
                    crate::ir::view_default(*default),
                    view_option(agreed),
                    view_environment(variables@),
                ),
            ),
        ensures
            agrees(
                r,
                check_default(
                    view_expression(Expression::Case(*case)),
                    crate::ir::view_default(*default),
                    view_option(agreed),
                    view_environment(variables@),
                ),
            ),
        decreases default, 0nat,
    {
        let joined = match default {
            Some(d) => match self.check_expression(d, variables) {
                Err(e) => return Err(e),
                Ok(t) => match self.merge(agreed, t) {
                    Err(e) => return Err(e),
                    Ok(a) => a,
                },
            },
            None => agreed,
        };
        match joined {
            Some(t) => Ok(t),
            None => Err(TypeCheckError::NoAlternativeFound(case.clone())),
        }
    }
}


/// Checks the types of a module.
pub fn check_types(module: &Module) -> (r: Result<(), TypeCheckError>)
    requires
        completes(check_module(module@)),
    ensures
        agrees_unit(r, check_module(module@)),
{
    TypeChecker::new().check(module)
}

} // verus!
