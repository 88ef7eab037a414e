//! Inference of the environments (captured free variables) of function
//! definitions.
use crate::analysis::type_check::{
    argument_bindings, bind_arguments, bind_elements, clone_variables, constructor_elements,
    constructor_in_range, lookup, lookup_type, view_environment, zip_bindings, Environment,
};
use crate::free_variables::{definition_occurrences, distinct, lemma_extend_distinct};
use crate::ir::{
    clone_arguments, clone_strings, definition_type, lemma_view_algebraic_alternatives,
    lemma_view_expressions, lemma_view_function_definitions, lemma_view_primitive_alternatives,
    names, view_algebraic_alternative, view_algebraic_alternatives, view_arguments, view_default,
    view_expression, view_expressions, view_function_definitions, view_primitive_alternative,
    view_primitive_alternatives, AlgebraicAlternative, AlgebraicAlternativeV, AlgebraicCase,
    Argument, ArgumentV, Bitcast, Case, ConstructorApplication, Expression, ExpressionV,
    FunctionApplication, FunctionDefinition, FunctionDefinitionV, Let, LetRecursive,
    PrimitiveAlternative, PrimitiveAlternativeV, PrimitiveCase, PrimitiveOperation,
};
use crate::types::{lemma_view_constructors, view_types, Type};
use vstd::prelude::*;

verus! {

broadcast use vstd::std_specs::vec::group_vec_axioms;

pub open spec fn let_recursive_bindings(definitions: Seq<FunctionDefinitionV>) -> Environment {
    definitions.map_values(|d: FunctionDefinitionV| (d.name, definition_type(d)))
}

/// The environment of a function: its free variables apart from the global
/// ones, with their types in `variables`.
pub open spec fn inferred_environment(
    d: FunctionDefinitionV,
    variables: Environment,
    globals: Seq<Seq<char>>,
) -> Seq<ArgumentV> {
    distinct(definition_occurrences(d, globals)).map_values(
        |n: Seq<char>| ArgumentV { name: n, type_: lookup(variables, n).unwrap() },
    )
}

/// The expression with the environments of its local functions inferred.
pub open spec fn infer(e: ExpressionV, variables: Environment, globals: Seq<Seq<char>>) -> ExpressionV
    decreases e,
{
    match e {
        ExpressionV::Bitcast(x, t) => ExpressionV::Bitcast(Box::new(infer(*x, variables, globals)), t),
        ExpressionV::AlgebraicCase(argument, alternatives, default) => ExpressionV::AlgebraicCase(
            Box::new(infer(*argument, variables, globals)),
            infer_algebraic_alternatives(alternatives, variables, globals),
            infer_default(default, variables, globals),
        ),
        ExpressionV::PrimitiveCase(argument, alternatives, default) => ExpressionV::PrimitiveCase(
            Box::new(infer(*argument, variables, globals)),
            infer_primitive_alternatives(alternatives, variables, globals),
            infer_default(default, variables, globals),
        ),
        ExpressionV::ConstructorApplication(c, arguments) => ExpressionV::ConstructorApplication(
            c,
            infer_expressions(arguments, variables, globals),
        ),
        ExpressionV::FunctionApplication(f, a) => ExpressionV::FunctionApplication(
            Box::new(infer(*f, variables, globals)),
            Box::new(infer(*a, variables, globals)),
        ),
        ExpressionV::LetRecursive(definitions, x) => {
            let inner = variables + let_recursive_bindings(definitions);
            ExpressionV::LetRecursive(
                infer_definitions(definitions, inner, globals),
                Box::new(infer(*x, inner, globals)),
            )
        },
        ExpressionV::Let(name, t, bound, x) => ExpressionV::Let(
            name,
            t,
            Box::new(infer(*bound, variables, globals)),
            Box::new(infer(*x, variables.push((name, t)), globals)),
        ),
        ExpressionV::Primitive(p) => ExpressionV::Primitive(p),
        ExpressionV::PrimitiveOperation(o, lhs, rhs) => ExpressionV::PrimitiveOperation(
            o,
            Box::new(infer(*lhs, variables, globals)),
            Box::new(infer(*rhs, variables, globals)),
        ),
        ExpressionV::Variable(name) => ExpressionV::Variable(name),
    }
}

pub open spec fn infer_default(
    default: Option<Box<ExpressionV>>,
    variables: Environment,
    globals: Seq<Seq<char>>,
) -> Option<Box<ExpressionV>>
    decreases default,
{
    match default {
        Some(d) => Some(Box::new(infer(*d, variables, globals))),
        None => None,
    }
}

pub open spec fn infer_expressions(
    s: Seq<ExpressionV>,
    variables: Environment,
    globals: Seq<Seq<char>>,
) -> Seq<ExpressionV>
    decreases s,
{
    if s.len() == 0 {
        Seq::empty()
    } else {
        infer_expressions(s.subrange(0, s.len() - 1), variables, globals).push(
            infer(s[s.len() - 1], variables, globals),
        )
    }
}

/// The variables bound in an alternative: those of its elements.
pub open spec fn alternative_variables(a: AlgebraicAlternativeV, variables: Environment) -> Environment {
    variables + zip_bindings(a.element_names, constructor_elements(a.constructor))
}

pub open spec fn infer_algebraic_alternative(
    a: AlgebraicAlternativeV,
    variables: Environment,
    globals: Seq<Seq<char>>,
) -> AlgebraicAlternativeV
    decreases a,
{
    AlgebraicAlternativeV {
        constructor: a.constructor,
        element_names: a.element_names,
        expression: infer(a.expression, alternative_variables(a, variables), globals),
    }
}

pub open spec fn infer_algebraic_alternatives(
    s: Seq<AlgebraicAlternativeV>,
    variables: Environment,
    globals: Seq<Seq<char>>,
) -> Seq<AlgebraicAlternativeV>
    decreases s,
{
    if s.len() == 0 {
        Seq::empty()
    } else {
        infer_algebraic_alternatives(s.subrange(0, s.len() - 1), variables, globals).push(
            infer_algebraic_alternative(s[s.len() - 1], variables, globals),
        )
    }
}

pub open spec fn infer_primitive_alternatives(
    s: Seq<PrimitiveAlternativeV>,
    variables: Environment,
    globals: Seq<Seq<char>>,
) -> Seq<PrimitiveAlternativeV>
    decreases s,
{
    if s.len() == 0 {
        Seq::empty()
    } else {
        infer_primitive_alternatives(s.subrange(0, s.len() - 1), variables, globals).push(
            PrimitiveAlternativeV {
                primitive: s[s.len() - 1].primitive,
                expression: infer(s[s.len() - 1].expression, variables, globals),
            },
        )
    }
}

/// The function with its environment inferred: its free variables, apart from
/// the globals, typed by `variables`; and so on inside its body, where its
/// arguments are bound too.
pub open spec fn infer_definition(
    d: FunctionDefinitionV,
    variables: Environment,
    globals: Seq<Seq<char>>,
) -> FunctionDefinitionV
    decreases d,
{
    FunctionDefinitionV {
        name: d.name,
        environment: inferred_environment(d, variables, globals),
        arguments: d.arguments,
        body: infer(d.body, variables + argument_bindings(d.arguments), globals),
        result_type: d.result_type,
    }
}

pub open spec fn infer_definitions(
    s: Seq<FunctionDefinitionV>,
    variables: Environment,
    globals: Seq<Seq<char>>,
) -> Seq<FunctionDefinitionV>
    decreases s,
{
    if s.len() == 0 {
        Seq::empty()
    } else {
        infer_definitions(s.subrange(0, s.len() - 1), variables, globals).push(
            infer_definition(s[s.len() - 1], variables, globals),
        )
    }
}

// Inference looks up the type of every captured variable and the payload
// types of every constructor that an alternative matches; the predicates
// below say that each of these exists.

pub open spec fn inferable(e: ExpressionV, variables: Environment, globals: Seq<Seq<char>>) -> bool
    decreases e,
{
    match e {
        ExpressionV::Bitcast(x, _) => inferable(*x, variables, globals),
        ExpressionV::AlgebraicCase(argument, alternatives, default) => inferable(
            *argument,
            variables,
            globals,
        ) && algebraic_alternatives_inferable(alternatives, variables, globals)
            && default_inferable(default, variables, globals),
        ExpressionV::PrimitiveCase(argument, alternatives, default) => inferable(
            *argument,
            variables,
            globals,
        ) && primitive_alternatives_inferable(alternatives, variables, globals)
            && default_inferable(default, variables, globals),
        ExpressionV::ConstructorApplication(_, arguments) => expressions_inferable(
            arguments,
            variables,
            globals,
        ),
        ExpressionV::FunctionApplication(f, a) => inferable(*f, variables, globals) && inferable(
            *a,
            variables,
            globals,
        ),
        ExpressionV::LetRecursive(definitions, x) => {
            let inner = variables + let_recursive_bindings(definitions);
            definitions_inferable(definitions, inner, globals) && inferable(*x, inner, globals)
        },
        ExpressionV::Let(name, t, bound, x) => inferable(*bound, variables, globals) && inferable(
            *x,
            variables.push((name, t)),
            globals,
        ),
        ExpressionV::Primitive(_) => true,
        ExpressionV::PrimitiveOperation(_, lhs, rhs) => inferable(*lhs, variables, globals)
            && inferable(*rhs, variables, globals),
        ExpressionV::Variable(_) => true,
    }
}

pub open spec fn default_inferable(
    default: Option<Box<ExpressionV>>,
    variables: Environment,
    globals: Seq<Seq<char>>,
) -> bool
    decreases default,
{
    match default {
        Some(d) => inferable(*d, variables, globals),
        None => true,
    }
}

pub open spec fn expressions_inferable(
    s: Seq<ExpressionV>,
    variables: Environment,
    globals: Seq<Seq<char>>,
) -> bool
    decreases s,
{
    if s.len() == 0 {
        true
    } else {
        expressions_inferable(s.subrange(0, s.len() - 1), variables, globals) && inferable(
            s[s.len() - 1],
            variables,
            globals,
        )
    }
}

pub open spec fn algebraic_alternatives_inferable(
    s: Seq<AlgebraicAlternativeV>,
    variables: Environment,
    globals: Seq<Seq<char>>,
) -> bool
    decreases s,
{
    if s.len() == 0 {
        true
    } else {
        let a = s[s.len() - 1];
        algebraic_alternatives_inferable(s.subrange(0, s.len() - 1), variables, globals)
            && constructor_in_range(a.constructor) && inferable(
            a.expression,
            alternative_variables(a, variables),
            globals,
        )
    }
}

pub open spec fn primitive_alternatives_inferable(
    s: Seq<PrimitiveAlternativeV>,
    variables: Environment,
    globals: Seq<Seq<char>>,
) -> bool
    decreases s,
{
    if s.len() == 0 {
        true
    } else {
        primitive_alternatives_inferable(s.subrange(0, s.len() - 1), variables, globals)
            && inferable(s[s.len() - 1].expression, variables, globals)
    }
}

pub open spec fn definition_inferable(
    d: FunctionDefinitionV,
    variables: Environment,
    globals: Seq<Seq<char>>,
) -> bool
    decreases d,
{
    &&& forall|n: Seq<char>| #[trigger]
        definition_occurrences(d, globals).contains(n) ==> lookup(variables, n) is Some
    &&& inferable(d.body, variables + argument_bindings(d.arguments), globals)
}

pub open spec fn definitions_inferable(
    s: Seq<FunctionDefinitionV>,
    variables: Environment,
    globals: Seq<Seq<char>>,
) -> bool
    decreases s,
{
    if s.len() == 0 {
        true
    } else {
        definitions_inferable(s.subrange(0, s.len() - 1), variables, globals)
            && definition_inferable(s[s.len() - 1], variables, globals)
    }
}


proof fn lemma_expressions_inferable(s: Seq<ExpressionV>, variables: Environment, globals: Seq<Seq<char>>)
    requires
        expressions_inferable(s, variables, globals),
    ensures
        forall|i: int| 0 <= i < s.len() ==> #[trigger] inferable(s[i], variables, globals),
    decreases s.len(),
{
    if s.len() > 0 {
        lemma_expressions_inferable(s.subrange(0, s.len() - 1), variables, globals);
        assert forall|i: int| 0 <= i < s.len() implies #[trigger] inferable(s[i], variables, globals) by {
            if i < s.len() - 1 {
                assert(s.subrange(0, s.len() - 1)[i] == s[i]);
            }
        }
    }
}

proof fn lemma_algebraic_alternatives_inferable(
    s: Seq<AlgebraicAlternativeV>,
    variables: Environment,
    globals: Seq<Seq<char>>,
)
    requires
        algebraic_alternatives_inferable(s, variables, globals),
    ensures
        forall|i: int|
            0 <= i < s.len() ==> constructor_in_range(#[trigger] s[i].constructor) && inferable(
                s[i].expression,
                alternative_variables(s[i], variables),
                globals,
            ),
    decreases s.len(),
{
    if s.len() > 0 {
        lemma_algebraic_alternatives_inferable(s.subrange(0, s.len() - 1), variables, globals);
        assert forall|i: int| 0 <= i < s.len() implies constructor_in_range(
            #[trigger] s[i].constructor,
        ) && inferable(s[i].expression, alternative_variables(s[i], variables), globals) by {
            if i < s.len() - 1 {
                assert(s.subrange(0, s.len() - 1)[i] == s[i]);
            }
        }
    }
}

proof fn lemma_primitive_alternatives_inferable(
    s: Seq<PrimitiveAlternativeV>,
    variables: Environment,
    globals: Seq<Seq<char>>,
)
    requires
        primitive_alternatives_inferable(s, variables, globals),
    ensures
        forall|i: int| 0 <= i < s.len() ==> inferable(#[trigger] s[i].expression, variables, globals),
    decreases s.len(),
{
    if s.len() > 0 {
        lemma_primitive_alternatives_inferable(s.subrange(0, s.len() - 1), variables, globals);
        assert forall|i: int| 0 <= i < s.len() implies inferable(
            #[trigger] s[i].expression,
            variables,
            globals,
        ) by {
            if i < s.len() - 1 {
                assert(s.subrange(0, s.len() - 1)[i] == s[i]);
            }
        }
    }
}

proof fn lemma_definitions_inferable(
    s: Seq<FunctionDefinitionV>,
    variables: Environment,
    globals: Seq<Seq<char>>,
)
    requires
        definitions_inferable(s, variables, globals),
    ensures
        forall|i: int| 0 <= i < s.len() ==> #[trigger] definition_inferable(s[i], variables, globals),
    decreases s.len(),
{
    if s.len() > 0 {
        lemma_definitions_inferable(s.subrange(0, s.len() - 1), variables, globals);
        assert forall|i: int| 0 <= i < s.len() implies #[trigger] definition_inferable(
            s[i],
            variables,
            globals,
        ) by {
            if i < s.len() - 1 {
                assert(s.subrange(0, s.len() - 1)[i] == s[i]);
            }
        }
    }
}

fn let_recursive_variables(variables: &Vec<(String, Type)>, definitions: &Vec<FunctionDefinition>) -> (r:
    Vec<(String, Type)>)
    ensures
        view_environment(r@) == view_environment(variables@) + let_recursive_bindings(
            view_function_definitions(definitions@),
        ),
{
    let ghost env = view_environment(variables@);
    let ghost defs = view_function_definitions(definitions@);
    let mut inner = clone_variables(variables);
    proof {
        lemma_view_function_definitions(definitions@);
    }
    assert(defs.subrange(0, 0) =~= Seq::<FunctionDefinitionV>::empty());
    for i in 0..definitions.len()
        invariant
            i <= definitions@.len(),
            defs == view_function_definitions(definitions@),
            defs.len() == definitions@.len(),
            forall|j: int| 0 <= j < definitions@.len() ==> #[trigger] defs[j] == definitions@[j]@,
            view_environment(inner@) == env + let_recursive_bindings(defs.subrange(0, i as int)),
    {
        let definition = &definitions[i];
        let ghost before = view_environment(inner@);
        inner.push((definition.name.clone(), definition.type_()));
        assert(view_environment(inner@) =~= before.push(
            (defs[i as int].name, definition_type(defs[i as int])),
        ));
        assert(view_environment(inner@) =~= env + let_recursive_bindings(defs.subrange(0, i + 1)));
    }
    assert(defs.subrange(0, definitions@.len() as int) =~= defs);
    inner
}

impl Expression {
    /// Infers the environments of the local functions of the expression, given
    /// the types of the variables in scope; the `globals` are never captured.
    pub fn infer_environment(&self, variables: &Vec<(String, Type)>, globals: &Vec<String>) -> (r:
        Expression)
        requires
            inferable(self@, view_environment(variables@), names(globals@)),
        ensures
            r@ == infer(self@, view_environment(variables@), names(globals@)),
        decreases self,
    {
        match self {
            Expression::Bitcast(b) => Expression::Bitcast(
                Bitcast {
                    expression: Box::new(b.expression.infer_environment(variables, globals)),
                    type_: b.type_.clone(),
                },
            ),
            Expression::Case(Case::Algebraic(c)) => Expression::Case(
                Case::Algebraic(
                    AlgebraicCase {
                        argument: Box::new(c.argument.infer_environment(variables, globals)),
                        alternatives: infer_algebraic_alternatives_exec(
                            &c.alternatives,
                            variables,
                            globals,
                        ),
                        default_alternative: infer_default_exec(
                            &c.default_alternative,
                            variables,
                            globals,
                        ),
                    },
                ),
            ),
            Expression::Case(Case::Primitive(c)) => Expression::Case(
                Case::Primitive(
                    PrimitiveCase {
                        argument: Box::new(c.argument.infer_environment(variables, globals)),
                        alternatives: infer_primitive_alternatives_exec(
                            &c.alternatives,
                            variables,
                            globals,
                        ),
                        default_alternative: infer_default_exec(
                            &c.default_alternative,
                            variables,
                            globals,
                        ),
                    },
                ),
            ),
            Expression::ConstructorApplication(a) => Expression::ConstructorApplication(
                ConstructorApplication {
                    constructor: a.constructor.clone(),
                    arguments: infer_expressions_exec(&a.arguments, variables, globals),
                },
            ),
            Expression::FunctionApplication(a) => Expression::FunctionApplication(
                FunctionApplication {
                    function: Box::new(a.function.infer_environment(variables, globals)),
                    argument: Box::new(a.argument.infer_environment(variables, globals)),
                },
            ),
            Expression::LetRecursive(l) => {
                let inner = let_recursive_variables(variables, &l.definitions);
                Expression::LetRecursive(
                    LetRecursive {
                        definitions: infer_definitions_exec(&l.definitions, &inner, globals),
                        expression: Box::new(l.expression.infer_environment(&inner, globals)),
                    },
                )
            },
            Expression::Let(l) => {
                let mut inner = clone_variables(variables);
                let ghost before = view_environment(inner@);
                inner.push((l.name.clone(), l.type_.clone()));
                assert(view_environment(inner@) =~= before.push((l.name@, l.type_@)));
                Expression::Let(
                    Let {
                        name: l.name.clone(),
                        type_: l.type_.clone(),
                        bound_expression: Box::new(
                            l.bound_expression.infer_environment(variables, globals),
                        ),
                        expression: Box::new(l.expression.infer_environment(&inner, globals)),
                    },
                )
            },
            Expression::Primitive(p) => Expression::Primitive(*p),
            Expression::PrimitiveOperation(o) => Expression::PrimitiveOperation(
                PrimitiveOperation {
                    operator: o.operator,
                    lhs: Box::new(o.lhs.infer_environment(variables, globals)),
                    rhs: Box::new(o.rhs.infer_environment(variables, globals)),
                },
            ),
            Expression::Variable(v) => Expression::Variable(v.clone()),
        }
    }
}

fn infer_default_exec(
    default: &Option<Box<Expression>>,
    variables: &Vec<(String, Type)>,
    globals: &Vec<String>,
) -> (r: Option<Box<Expression>>)
    requires
        default_inferable(view_default(*default), view_environment(variables@), names(globals@)),
    ensures
        view_default(r) == infer_default(
            view_default(*default),
            view_environment(variables@),
            names(globals@),
        ),
    decreases default,
{
    match default {
        Some(d) => Some(Box::new(d.infer_environment(variables, globals))),
        None => None,
    }
}

fn infer_expressions_exec(
    s: &Vec<Expression>,
    variables: &Vec<(String, Type)>,
    globals: &Vec<String>,
) -> (r: Vec<Expression>)
    requires
        expressions_inferable(view_expressions(s@), view_environment(variables@), names(globals@)),
    ensures
        view_expressions(r@) == infer_expressions(
            view_expressions(s@),
            view_environment(variables@),
            names(globals@),
        ),
    decreases s,
{
    let ghost v = view_expressions(s@);
    let ghost env = view_environment(variables@);
    let ghost g = names(globals@);
    proof {
        lemma_view_expressions(s@);
        lemma_expressions_inferable(v, env, g);
    }
    let mut r: Vec<Expression> = Vec::new();
    for i in 0..s.len()
        invariant
            i <= s@.len(),
            r@.len() == i,
            v == view_expressions(s@),
            env == view_environment(variables@),
            g == names(globals@),
            v.len() == s@.len(),
            forall|j: int| 0 <= j < s@.len() ==> #[trigger] v[j] == s@[j]@,
            forall|j: int| 0 <= j < s@.len() ==> inferable(#[trigger] v[j], env, g),
            view_expressions(r@) == infer_expressions(v.subrange(0, i as int), env, g),
    {
        let ghost before = r@;
        assert(v[i as int] == s@[i as int]@);
        r.push(s[i].infer_environment(variables, globals));
        assert(r@.subrange(0, r@.len() - 1) =~= before);
        assert(v.subrange(0, i + 1).subrange(0, i as int) =~= v.subrange(0, i as int));
    }
    assert(v.subrange(0, s@.len() as int) =~= v);
    r
}

#[verifier::spinoff_prover]
fn infer_algebraic_alternatives_exec(
    s: &Vec<AlgebraicAlternative>,
    variables: &Vec<(String, Type)>,
    globals: &Vec<String>,
) -> (r: Vec<AlgebraicAlternative>)
    requires
        algebraic_alternatives_inferable(
            view_algebraic_alternatives(s@),
            view_environment(variables@),
            names(globals@),
        ),
    ensures
        view_algebraic_alternatives(r@) == infer_algebraic_alternatives(
            view_algebraic_alternatives(s@),
            view_environment(variables@),
            names(globals@),
        ),
    decreases s,
{
    let ghost v = view_algebraic_alternatives(s@);
    let ghost env = view_environment(variables@);
    let ghost g = names(globals@);
    proof {
        lemma_view_algebraic_alternatives(s@);
        lemma_algebraic_alternatives_inferable(v, env, g);
    }
    let mut r: Vec<AlgebraicAlternative> = Vec::new();
    for i in 0..s.len()
        invariant
            i <= s@.len(),
            r@.len() == i,
            v == view_algebraic_alternatives(s@),
            env == view_environment(variables@),
            g == names(globals@),
            v.len() == s@.len(),
            forall|j: int| 0 <= j < s@.len() ==> #[trigger] v[j] == view_algebraic_alternative(s@[j]),
            forall|j: int|
                0 <= j < s@.len() ==> constructor_in_range(#[trigger] v[j].constructor) && inferable(
                    v[j].expression,
                    alternative_variables(v[j], env),
                    g,
                ),
            view_algebraic_alternatives(r@) == infer_algebraic_alternatives(
                v.subrange(0, i as int),
                env,
                g,
            ),
    {
        let a = &s[i];
        let unfolded = a.constructor.algebraic_type.unfold();
        proof {
            crate::types::lemma_substitute_constructors(
                a.constructor.algebraic_type@,
                0,
                a.constructor.algebraic_type@,
            );
            lemma_view_constructors(unfolded.constructors@);
            lemma_view_constructors(a.constructor.algebraic_type.constructors@);
            assert(constructor_in_range(v[i as int].constructor));
        }
        let mut inner = clone_variables(variables);
        bind_elements(
            &mut inner,
            &a.element_names,
            &unfolded.constructors[a.constructor.index as usize].elements,
        );
        proof {
            let alternative = v[i as int];
            let index = a.constructor.index as int;
            assert(alternative == view_algebraic_alternative(s@[i as int]));
            assert(alternative.element_names == names(a.element_names@));
            assert(alternative.constructor.algebraic_type == a.constructor.algebraic_type@);
            assert(alternative.constructor.index == index);
            assert(unfolded@ == crate::types::unfold(alternative.constructor.algebraic_type));
            assert(unfolded@[index] == crate::types::view_constructor(unfolded.constructors@[index]));
            assert(constructor_elements(alternative.constructor) == view_types(
                unfolded.constructors@[index].elements@,
            ));
        }
        assert(view_environment(inner@) == alternative_variables(v[i as int], env));
        let ghost before = r@;
        r.push(
            AlgebraicAlternative {
                constructor: a.constructor.clone(),
                element_names: clone_strings(&a.element_names),
                expression: a.expression.infer_environment(&inner, globals),
            },
        );
        assert(view_algebraic_alternative(r@[i as int]) == infer_algebraic_alternative(
            v[i as int],
            env,
            g,
        ));
        assert(v.subrange(0, i + 1)[i as int] == v[i as int]);
        assert(r@.subrange(0, r@.len() - 1) =~= before);
        assert(v.subrange(0, i + 1).subrange(0, i as int) =~= v.subrange(0, i as int));
    }
    assert(v.subrange(0, s@.len() as int) =~= v);
    r
}

fn infer_primitive_alternatives_exec(
    s: &Vec<PrimitiveAlternative>,
    variables: &Vec<(String, Type)>,
    globals: &Vec<String>,
) -> (r: Vec<PrimitiveAlternative>)
    requires
        primitive_alternatives_inferable(
            view_primitive_alternatives(s@),
            view_environment(variables@),
            names(globals@),
        ),
    ensures
        view_primitive_alternatives(r@) == infer_primitive_alternatives(
            view_primitive_alternatives(s@),
            view_environment(variables@),
            names(globals@),
        ),
    decreases s,
{
    let ghost v = view_primitive_alternatives(s@);
    let ghost env = view_environment(variables@);
    let ghost g = names(globals@);
    proof {
        lemma_view_primitive_alternatives(s@);
        lemma_primitive_alternatives_inferable(v, env, g);
    }
    let mut r: Vec<PrimitiveAlternative> = Vec::new();
    for i in 0..s.len()
        invariant
            i <= s@.len(),
            r@.len() == i,
            v == view_primitive_alternatives(s@),
            env == view_environment(variables@),
            g == names(globals@),
            v.len() == s@.len(),
            forall|j: int| 0 <= j < s@.len() ==> #[trigger] v[j] == view_primitive_alternative(s@[j]),
            forall|j: int| 0 <= j < s@.len() ==> inferable(#[trigger] v[j].expression, env, g),
            view_primitive_alternatives(r@) == infer_primitive_alternatives(
                v.subrange(0, i as int),
                env,
                g,
            ),
    {
        let a = &s[i];
        let ghost before = r@;
        r.push(
            PrimitiveAlternative {
                primitive: a.primitive,
                expression: a.expression.infer_environment(variables, globals),
            },
        );
        assert(view_primitive_alternative(r@[i as int]) == (PrimitiveAlternativeV {
            primitive: v[i as int].primitive,
            expression: infer(v[i as int].expression, env, g),
        }));
        assert(v.subrange(0, i + 1)[i as int] == v[i as int]);
        assert(r@.subrange(0, r@.len() - 1) =~= before);
        assert(v.subrange(0, i + 1).subrange(0, i as int) =~= v.subrange(0, i as int));
    }
    assert(v.subrange(0, s@.len() as int) =~= v);
    r
}

fn infer_definitions_exec(
    s: &Vec<FunctionDefinition>,
    variables: &Vec<(String, Type)>,
    globals: &Vec<String>,
) -> (r: Vec<FunctionDefinition>)
    requires
        definitions_inferable(
            view_function_definitions(s@),
            view_environment(variables@),
            names(globals@),
        ),
    ensures
        view_function_definitions(r@) == infer_definitions(
            view_function_definitions(s@),
            view_environment(variables@),
            names(globals@),
        ),
    decreases s,
{
    let ghost v = view_function_definitions(s@);
    let ghost env = view_environment(variables@);
    let ghost g = names(globals@);
    proof {
        lemma_view_function_definitions(s@);
        lemma_definitions_inferable(v, env, g);
    }
    let mut r: Vec<FunctionDefinition> = Vec::new();
    for i in 0..s.len()
        invariant
            i <= s@.len(),
            r@.len() == i,
            v == view_function_definitions(s@),
            env == view_environment(variables@),
            g == names(globals@),
            v.len() == s@.len(),
            forall|j: int| 0 <= j < s@.len() ==> #[trigger] v[j] == s@[j]@,
            forall|j: int| 0 <= j < s@.len() ==> definition_inferable(#[trigger] v[j], env, g),
            view_function_definitions(r@) == infer_definitions(v.subrange(0, i as int), env, g),
    {
        let ghost before = r@;
        assert(v[i as int] == s@[i as int]@);
        r.push(s[i].infer_environment(variables, globals));
        assert(r@.subrange(0, r@.len() - 1) =~= before);
        assert(v.subrange(0, i + 1).subrange(0, i as int) =~= v.subrange(0, i as int));
    }
    assert(v.subrange(0, s@.len() as int) =~= v);
    r
}

impl FunctionDefinition {
    /// Infers the environment of the function, and of the local functions in
    /// its body, given the types of the variables in scope; the `globals` are
    /// never captured.
    pub fn infer_environment(&self, variables: &Vec<(String, Type)>, globals: &Vec<String>) -> (r:
        FunctionDefinition)
        requires
            definition_inferable(self@, view_environment(variables@), names(globals@)),
        ensures
            r@ == infer_definition(self@, view_environment(variables@), names(globals@)),
        decreases self,
    {
        let ghost env = view_environment(variables@);
        let ghost g = names(globals@);
        let free = self.find_variables(globals);
        let ghost occurrences = definition_occurrences(self@, g);
        proof {
            lemma_extend_distinct(Seq::empty(), occurrences);
        }
        let mut environment: Vec<Argument> = Vec::new();
        for i in 0..free.len()
            invariant
                i <= free@.len(),
                environment@.len() == i,
                env == view_environment(variables@),
                names(free@) == distinct(occurrences),
                forall|n: Seq<char>| #[trigger]
                    distinct(occurrences).contains(n) ==> occurrences.contains(n),
                forall|n: Seq<char>| #[trigger] occurrences.contains(n) ==> lookup(env, n) is Some,
                forall|j: int|
                    0 <= j < i ==> #[trigger] crate::ir::view_argument(environment@[j]) == (ArgumentV {
                        name: free@[j]@,
                        type_: lookup(env, free@[j]@).unwrap(),
                    }),
        {
            assert(names(free@)[i as int] == free@[i as int]@);
            assert(distinct(occurrences).contains(free@[i as int]@));
            let t = lookup_type(variables, &free[i]);
            match t {
                Some(t) => environment.push(Argument { name: free[i].clone(), type_: t }),
                None => {
                    assert(false);
                },
            }
        }
        assert(view_arguments(environment@) =~= inferred_environment(self@, env, g));
        let mut inner = clone_variables(variables);
        bind_arguments(&mut inner, &self.arguments);
        FunctionDefinition {
            name: self.name.clone(),
            environment,
            arguments: clone_arguments(&self.arguments),
            body: self.body.infer_environment(&inner, globals),
            result_type: self.result_type.clone(),
        }
    }
}

} // verus!
