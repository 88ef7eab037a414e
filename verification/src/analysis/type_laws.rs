//! Laws of type checking: what each kind of expression is accepted with, and
//! when a module is accepted.
use crate::analysis::type_check::{
    check_algebraic_alternatives, check_arguments, check_default, check_definition, check_definitions,
    check_expression, check_function_definition, check_function_definitions, check_module,
    check_primitive_alternatives, constructor_elements, global_name, global_type, lookup,
    constructor_in_range, equality, merge, module_environment, primitive_type, zip_bindings, Environment,
    Failure, TypeCheckErrorV,
};
use crate::analysis::sort_global_variables::distinct_names;
use crate::ir::{
    definition_type, AlgebraicAlternativeV, ConstructorRefV, DefinitionV, ExpressionV,
    FunctionDefinitionV, ModuleV, PrimitiveAlternativeV,
};
use crate::types::TypeV;
use vstd::prelude::*;

verus! {

/// An alternative of an algebraic case matches the type of the argument,
/// names a constructor of it, and its expression, with the constructor's
/// elements bound to its element names, has type `t`.
pub open spec fn algebraic_alternative_has_type(
    a: AlgebraicAlternativeV,
    argument_type: TypeV,
    env: Environment,
    t: TypeV,
) -> bool {
    &&& TypeV::Algebraic(a.constructor.algebraic_type) == argument_type
    &&& constructor_in_range(a.constructor)
    &&& check_expression(
        a.expression,
        env + zip_bindings(a.element_names, constructor_elements(a.constructor)),
    ) == Ok::<TypeV, Failure>(t)
}

/// An alternative of a primitive case matches the type of the argument and
/// its expression has type `t`.
pub open spec fn primitive_alternative_has_type(
    a: PrimitiveAlternativeV,
    argument_type: TypeV,
    env: Environment,
    t: TypeV,
) -> bool {
    &&& TypeV::Primitive(primitive_type(a.primitive)) == argument_type
    &&& check_expression(a.expression, env) == Ok::<TypeV, Failure>(t)
}

proof fn lemma_algebraic_alternatives(
    alternatives: Seq<AlgebraicAlternativeV>,
    argument_type: TypeV,
    env: Environment,
    agreed: Option<TypeV>,
    t: TypeV,
)
    ensures
        (check_algebraic_alternatives(alternatives, argument_type, env, agreed) == Ok::<
            Option<TypeV>,
            Failure,
        >(Some(t))) <==> ((forall|i: int|
            0 <= i < alternatives.len() ==> #[trigger] algebraic_alternative_has_type(
                alternatives[i],
                argument_type,
                env,
                t,
            )) && (agreed == Some(t) || (agreed is None && alternatives.len() > 0))),
        (check_algebraic_alternatives(alternatives, argument_type, env, agreed) == Ok::<
            Option<TypeV>,
            Failure,
        >(None)) <==> (alternatives.len() == 0 && agreed is None),
    decreases alternatives.len(),
{
    if alternatives.len() > 0 {
        let a = alternatives[0];
        let rest = alternatives.subrange(1, alternatives.len() as int);
        assert forall|j: int| 0 <= j < rest.len() implies rest[j] == alternatives[j + 1] by {}
        let inner = env + zip_bindings(a.element_names, constructor_elements(a.constructor));
        if TypeV::Algebraic(a.constructor.algebraic_type) == argument_type && constructor_in_range(
            a.constructor,
        ) {
            match check_expression(a.expression, inner) {
                Ok(t0) => {
                    let next = Some(t0);
                    lemma_algebraic_alternatives(rest, argument_type, env, next, t);
                    if (forall|i: int|
                        0 <= i < alternatives.len() ==> #[trigger] algebraic_alternative_has_type(
                            alternatives[i],
                            argument_type,
                            env,
                            t,
                        )) {
                        assert(algebraic_alternative_has_type(alternatives[0], argument_type, env, t));
                        assert forall|j: int| 0 <= j < rest.len() implies #[trigger] algebraic_alternative_has_type(
                            rest[j],
                            argument_type,
                            env,
                            t,
                        ) by {
                            assert(algebraic_alternative_has_type(
                                alternatives[j + 1],
                                argument_type,
                                env,
                                t,
                            ));
                        }
                    }
                    if check_algebraic_alternatives(alternatives, argument_type, env, agreed)
                        == Ok::<Option<TypeV>, Failure>(Some(t)) {
                        assert forall|i: int| 0 <= i < alternatives.len() implies #[trigger] algebraic_alternative_has_type(
                            alternatives[i],
                            argument_type,
                            env,
                            t,
                        ) by {
                            if i > 0 {
                                assert(algebraic_alternative_has_type(
                                    rest[i - 1],
                                    argument_type,
                                    env,
                                    t,
                                ));
                            }
                        }
                    }
                },
                Err(_) => {
                    assert(!algebraic_alternative_has_type(alternatives[0], argument_type, env, t));
                },
            }
        } else {
            assert(!algebraic_alternative_has_type(alternatives[0], argument_type, env, t));
        }
    }
}

proof fn lemma_primitive_alternatives(
    alternatives: Seq<PrimitiveAlternativeV>,
    argument_type: TypeV,
    env: Environment,
    agreed: Option<TypeV>,
    t: TypeV,
)
    ensures
        (check_primitive_alternatives(alternatives, argument_type, env, agreed) == Ok::<
            Option<TypeV>,
            Failure,
        >(Some(t))) <==> ((forall|i: int|
            0 <= i < alternatives.len() ==> #[trigger] primitive_alternative_has_type(
                alternatives[i],
                argument_type,
                env,
                t,
            )) && (agreed == Some(t) || (agreed is None && alternatives.len() > 0))),
        (check_primitive_alternatives(alternatives, argument_type, env, agreed) == Ok::<
            Option<TypeV>,
            Failure,
        >(None)) <==> (alternatives.len() == 0 && agreed is None),
    decreases alternatives.len(),
{
    if alternatives.len() > 0 {
        let a = alternatives[0];
        let rest = alternatives.subrange(1, alternatives.len() as int);
        assert forall|j: int| 0 <= j < rest.len() implies rest[j] == alternatives[j + 1] by {}
        if TypeV::Primitive(primitive_type(a.primitive)) == argument_type {
            match check_expression(a.expression, env) {
                Ok(t0) => {
                    let next = Some(t0);
                    lemma_primitive_alternatives(rest, argument_type, env, next, t);
                    if (forall|i: int|
                        0 <= i < alternatives.len() ==> #[trigger] primitive_alternative_has_type(
                            alternatives[i],
                            argument_type,
                            env,
                            t,
                        )) {
                        assert(primitive_alternative_has_type(alternatives[0], argument_type, env, t));
                        assert forall|j: int| 0 <= j < rest.len() implies #[trigger] primitive_alternative_has_type(
                            rest[j],
                            argument_type,
                            env,
                            t,
                        ) by {
                            assert(primitive_alternative_has_type(
                                alternatives[j + 1],
                                argument_type,
                                env,
                                t,
                            ));
                        }
                    }
                    if check_primitive_alternatives(alternatives, argument_type, env, agreed)
                        == Ok::<Option<TypeV>, Failure>(Some(t)) {
                        assert forall|i: int| 0 <= i < alternatives.len() implies #[trigger] primitive_alternative_has_type(
                            alternatives[i],
                            argument_type,
                            env,
                            t,
                        ) by {
                            if i > 0 {
                                assert(primitive_alternative_has_type(
                                    rest[i - 1],
                                    argument_type,
                                    env,
                                    t,
                                ));
                            }
                        }
                    }
                },
                Err(_) => {
                    assert(!primitive_alternative_has_type(alternatives[0], argument_type, env, t));
                },
            }
        } else {
            assert(!primitive_alternative_has_type(alternatives[0], argument_type, env, t));
        }
    }
}

/// An algebraic case has type `t` exactly when its argument checks, it has
/// an alternative or a default, every alternative matches the argument's
/// type and has type `t`, and so does the default; a case with neither
/// alternatives nor default is refused.
pub proof fn algebraic_case_law(
    argument: ExpressionV,
    alternatives: Seq<AlgebraicAlternativeV>,
    default: Option<Box<ExpressionV>>,
    env: Environment,
    t: TypeV,
)
    ensures
        ({
            let e = ExpressionV::AlgebraicCase(Box::new(argument), alternatives, default);
            (check_expression(e, env) == Ok::<TypeV, Failure>(t)) <==> {
                &&& check_expression(argument, env) is Ok
                &&& (alternatives.len() > 0 || default is Some)
                &&& forall|i: int|
                    0 <= i < alternatives.len() ==> #[trigger] algebraic_alternative_has_type(
                        alternatives[i],
                        check_expression(argument, env)->Ok_0,
                        env,
                        t,
                    )
                &&& (default matches Some(d) ==> check_expression(*d, env) == Ok::<
                    TypeV,
                    Failure,
                >(t))
            }
        }),
        ({
            let e = ExpressionV::AlgebraicCase(Box::new(argument), alternatives, default);
            check_expression(argument, env) is Ok && alternatives.len() == 0 && default is None
                ==> check_expression(e, env) == Err::<TypeV, Failure>(
                Failure::Error(TypeCheckErrorV::NoAlternativeFound(e)),
            )
        }),
{
    let e = ExpressionV::AlgebraicCase(Box::new(argument), alternatives, default);
    if check_expression(argument, env) is Ok {
        let a = check_expression(argument, env)->Ok_0;
        lemma_algebraic_alternatives(alternatives, a, env, None, t);
        let folded = check_algebraic_alternatives(alternatives, a, env, None);
        assert(check_expression(e, env) == match folded {
            Err(f) => Err(f),
            Ok(agreed) => check_default(e, default, agreed, env),
        });
        if folded is Ok {
            let agreed = folded->Ok_0;
            assert(check_default(e, default, agreed, env) == match (match default {
                Some(d) => match check_expression(*d, env) {
                    Err(f) => Err(f),
                    Ok(u) => merge(agreed, u),
                },
                None => Ok(agreed),
            }) {
                Err(f) => Err(f),
                Ok(Some(u)) => Ok(u),
                Ok(None) => Err(Failure::Error(TypeCheckErrorV::NoAlternativeFound(e))),
            });
        }
        if folded is Ok && folded->Ok_0 is Some {
            let s = folded->Ok_0->Some_0;
            lemma_algebraic_alternatives(alternatives, a, env, None, s);
            if alternatives.len() > 0 {
                assert(algebraic_alternative_has_type(alternatives[0], a, env, s));
                if (forall|i: int|
                    0 <= i < alternatives.len() ==> #[trigger] algebraic_alternative_has_type(
                        alternatives[i],
                        a,
                        env,
                        t,
                    )) {
                    assert(algebraic_alternative_has_type(alternatives[0], a, env, t));
                }
            }
        }
    }
}

/// A primitive case has type `t` exactly when its argument checks, it has an
/// alternative or a default, every alternative's primitive has the
/// argument's type and its expression has type `t`, and so does the
/// default; a case with neither alternatives nor default is refused.
pub proof fn primitive_case_law(
    argument: ExpressionV,
    alternatives: Seq<PrimitiveAlternativeV>,
    default: Option<Box<ExpressionV>>,
    env: Environment,
    t: TypeV,
)
    ensures
        ({
            let e = ExpressionV::PrimitiveCase(Box::new(argument), alternatives, default);
            (check_expression(e, env) == Ok::<TypeV, Failure>(t)) <==> {
                &&& check_expression(argument, env) is Ok
                &&& (alternatives.len() > 0 || default is Some)
                &&& forall|i: int|
                    0 <= i < alternatives.len() ==> #[trigger] primitive_alternative_has_type(
                        alternatives[i],
                        check_expression(argument, env)->Ok_0,
                        env,
                        t,
                    )
                &&& (default matches Some(d) ==> check_expression(*d, env) == Ok::<
                    TypeV,
                    Failure,
                >(t))
            }
        }),
        ({
            let e = ExpressionV::PrimitiveCase(Box::new(argument), alternatives, default);
            check_expression(argument, env) is Ok && alternatives.len() == 0 && default is None
                ==> check_expression(e, env) == Err::<TypeV, Failure>(
                Failure::Error(TypeCheckErrorV::NoAlternativeFound(e)),
            )
        }),
{
    let e = ExpressionV::PrimitiveCase(Box::new(argument), alternatives, default);
    if check_expression(argument, env) is Ok {
        let a = check_expression(argument, env)->Ok_0;
        lemma_primitive_alternatives(alternatives, a, env, None, t);
        let folded = check_primitive_alternatives(alternatives, a, env, None);
        assert(check_expression(e, env) == match folded {
            Err(f) => Err(f),
            Ok(agreed) => check_default(e, default, agreed, env),
        });
        if folded is Ok {
            let agreed = folded->Ok_0;
            assert(check_default(e, default, agreed, env) == match (match default {
                Some(d) => match check_expression(*d, env) {
                    Err(f) => Err(f),
                    Ok(u) => merge(agreed, u),
                },
                None => Ok(agreed),
            }) {
                Err(f) => Err(f),
                Ok(Some(u)) => Ok(u),
                Ok(None) => Err(Failure::Error(TypeCheckErrorV::NoAlternativeFound(e))),
            });
        }
        if folded is Ok && folded->Ok_0 is Some {
            let s = folded->Ok_0->Some_0;
            lemma_primitive_alternatives(alternatives, a, env, None, s);
            if alternatives.len() > 0 {
                assert(primitive_alternative_has_type(alternatives[0], a, env, s));
                if (forall|i: int|
                    0 <= i < alternatives.len() ==> #[trigger] primitive_alternative_has_type(
                        alternatives[i],
                        a,
                        env,
                        t,
                    )) {
                    assert(primitive_alternative_has_type(alternatives[0], a, env, t));
                }
            }
        }
    }
}

proof fn lemma_algebraic_first_mismatch(
    alternatives: Seq<AlgebraicAlternativeV>,
    argument_type: TypeV,
    env: Environment,
    agreed: Option<TypeV>,
    t: TypeV,
    k: int,
)
    requires
        0 <= k < alternatives.len(),
        forall|i: int|
            0 <= i < k ==> #[trigger] algebraic_alternative_has_type(
                alternatives[i],
                argument_type,
                env,
                t,
            ),
        agreed is None || agreed == Some(t),
        TypeV::Algebraic(alternatives[k].constructor.algebraic_type) != argument_type,
    ensures
        check_algebraic_alternatives(alternatives, argument_type, env, agreed) == Err::<
            Option<TypeV>,
            Failure,
        >(
            Failure::Error(
                TypeCheckErrorV::TypesNotMatched(
                    TypeV::Algebraic(alternatives[k].constructor.algebraic_type),
                    argument_type,
                ),
            ),
        ),
    decreases k,
{
    if k > 0 {
        let rest = alternatives.subrange(1, alternatives.len() as int);
        assert(algebraic_alternative_has_type(alternatives[0], argument_type, env, t));
        assert forall|i: int| 0 <= i < k - 1 implies #[trigger] algebraic_alternative_has_type(
            rest[i],
            argument_type,
            env,
            t,
        ) by {
            assert(rest[i] == alternatives[i + 1]);
            assert(algebraic_alternative_has_type(alternatives[i + 1], argument_type, env, t));
        }
        assert(rest[k - 1] == alternatives[k]);
        lemma_algebraic_first_mismatch(rest, argument_type, env, Some(t), t, k - 1);
    }
}

proof fn lemma_primitive_first_mismatch(
    alternatives: Seq<PrimitiveAlternativeV>,
    argument_type: TypeV,
    env: Environment,
    agreed: Option<TypeV>,
    t: TypeV,
    k: int,
)
    requires
        0 <= k < alternatives.len(),
        forall|i: int|
            0 <= i < k ==> #[trigger] primitive_alternative_has_type(
                alternatives[i],
                argument_type,
                env,
                t,
            ),
        agreed is None || agreed == Some(t),
        TypeV::Primitive(primitive_type(alternatives[k].primitive)) != argument_type,
    ensures
        check_primitive_alternatives(alternatives, argument_type, env, agreed) == Err::<
            Option<TypeV>,
            Failure,
        >(
            Failure::Error(
                TypeCheckErrorV::TypesNotMatched(
                    TypeV::Primitive(primitive_type(alternatives[k].primitive)),
                    argument_type,
                ),
            ),
        ),
    decreases k,
{
    if k > 0 {
        let rest = alternatives.subrange(1, alternatives.len() as int);
        assert(primitive_alternative_has_type(alternatives[0], argument_type, env, t));
        assert forall|i: int| 0 <= i < k - 1 implies #[trigger] primitive_alternative_has_type(
            rest[i],
            argument_type,
            env,
            t,
        ) by {
            assert(rest[i] == alternatives[i + 1]);
            assert(primitive_alternative_has_type(alternatives[i + 1], argument_type, env, t));
        }
        assert(rest[k - 1] == alternatives[k]);
        lemma_primitive_first_mismatch(rest, argument_type, env, Some(t), t, k - 1);
    }
}

/// In an algebraic case whose argument checks, the first alternative whose
/// constructor belongs to another type than the argument's, after
/// alternatives that all have one type `t`, makes the case fail with the
/// mismatch of that type and the argument's.
pub proof fn algebraic_case_mismatch_law(
    argument: ExpressionV,
    alternatives: Seq<AlgebraicAlternativeV>,
    default: Option<Box<ExpressionV>>,
    env: Environment,
    t: TypeV,
    k: int,
)
    requires
        check_expression(argument, env) is Ok,
        0 <= k < alternatives.len(),
        forall|i: int|
            0 <= i < k ==> #[trigger] algebraic_alternative_has_type(
                alternatives[i],
                check_expression(argument, env)->Ok_0,
                env,
                t,
            ),
        TypeV::Algebraic(alternatives[k].constructor.algebraic_type) != check_expression(
            argument,
            env,
        )->Ok_0,
    ensures
        check_expression(ExpressionV::AlgebraicCase(Box::new(argument), alternatives, default), env)
            == Err::<TypeV, Failure>(
            Failure::Error(
                TypeCheckErrorV::TypesNotMatched(
                    TypeV::Algebraic(alternatives[k].constructor.algebraic_type),
                    check_expression(argument, env)->Ok_0,
                ),
            ),
        ),
{
    lemma_algebraic_first_mismatch(
        alternatives,
        check_expression(argument, env)->Ok_0,
        env,
        None,
        t,
        k,
    );
}

/// In a primitive case whose argument checks, the first alternative whose
/// primitive has another type than the argument, after alternatives that all
/// have one type `t`, makes the case fail with the mismatch of its type and
/// the argument's.
pub proof fn primitive_case_mismatch_law(
    argument: ExpressionV,
    alternatives: Seq<PrimitiveAlternativeV>,
    default: Option<Box<ExpressionV>>,
    env: Environment,
    t: TypeV,
    k: int,
)
    requires
        check_expression(argument, env) is Ok,
        0 <= k < alternatives.len(),
        forall|i: int|
            0 <= i < k ==> #[trigger] primitive_alternative_has_type(
                alternatives[i],
                check_expression(argument, env)->Ok_0,
                env,
                t,
            ),
        TypeV::Primitive(primitive_type(alternatives[k].primitive)) != check_expression(
            argument,
            env,
        )->Ok_0,
    ensures
        check_expression(ExpressionV::PrimitiveCase(Box::new(argument), alternatives, default), env)
            == Err::<TypeV, Failure>(
            Failure::Error(
                TypeCheckErrorV::TypesNotMatched(
                    TypeV::Primitive(primitive_type(alternatives[k].primitive)),
                    check_expression(argument, env)->Ok_0,
                ),
            ),
        ),
{
    lemma_primitive_first_mismatch(
        alternatives,
        check_expression(argument, env)->Ok_0,
        env,
        None,
        t,
        k,
    );
}

proof fn lemma_check_arguments(arguments: Seq<ExpressionV>, elements: Seq<TypeV>, env: Environment)
    requires
        arguments.len() == elements.len(),
    ensures
        check_arguments(arguments, elements, env) is Ok <==> forall|i: int|
            0 <= i < arguments.len() ==> #[trigger] check_expression(arguments[i], env) == Ok::<
                TypeV,
                Failure,
            >(elements[i]),
    decreases arguments.len(),
{
    if arguments.len() > 0 {
        let rest = arguments.subrange(1, arguments.len() as int);
        let rest_elements = elements.subrange(1, elements.len() as int);
        lemma_check_arguments(rest, rest_elements, env);
        if check_expression(arguments[0], env) == Ok::<TypeV, Failure>(elements[0]) {
            if (forall|i: int|
                0 <= i < rest.len() ==> #[trigger] check_expression(rest[i], env) == Ok::<
                    TypeV,
                    Failure,
                >(rest_elements[i])) {
                assert forall|i: int| 0 <= i < arguments.len() implies #[trigger] check_expression(
                    arguments[i],
                    env,
                ) == Ok::<TypeV, Failure>(elements[i]) by {
                    if i > 0 {
                        assert(rest[i - 1] == arguments[i]);
                        assert(rest_elements[i - 1] == elements[i]);
                        assert(check_expression(rest[i - 1], env) == Ok::<TypeV, Failure>(
                            rest_elements[i - 1],
                        ));
                    }
                }
            }
            if (forall|i: int|
                0 <= i < arguments.len() ==> #[trigger] check_expression(arguments[i], env)
                    == Ok::<TypeV, Failure>(elements[i])) {
                assert forall|i: int| 0 <= i < rest.len() implies #[trigger] check_expression(
                    rest[i],
                    env,
                ) == Ok::<TypeV, Failure>(rest_elements[i]) by {
                    assert(rest[i] == arguments[i + 1]);
                    assert(check_expression(arguments[i + 1], env) == Ok::<TypeV, Failure>(
                        elements[i + 1],
                    ));
                }
            }
        } else {
            assert(check_expression(arguments[0], env) != Ok::<TypeV, Failure>(elements[0]));
        }
    }
}

/// A constructor application with as many arguments as the constructor has
/// elements has the constructor's algebraic type exactly when every argument
/// has the type of its element; with another number of arguments it is
/// refused for the wrong length, before any argument is checked.
pub proof fn constructor_application_law(
    constructor: ConstructorRefV,
    arguments: Seq<ExpressionV>,
    env: Environment,
)
    requires
        constructor_in_range(constructor),
    ensures
        ({
            let e = ExpressionV::ConstructorApplication(constructor, arguments);
            arguments.len() != constructor_elements(constructor).len() ==> check_expression(e, env)
                == Err::<TypeV, Failure>(
                Failure::Error(TypeCheckErrorV::WrongArgumentsLength(e)),
            )
        }),
        ({
            let e = ExpressionV::ConstructorApplication(constructor, arguments);
            (check_expression(e, env) is Ok) <==> (arguments.len() == constructor_elements(
                constructor,
            ).len() && forall|i: int|
                0 <= i < arguments.len() ==> #[trigger] check_expression(arguments[i], env)
                    == Ok::<TypeV, Failure>(constructor_elements(constructor)[i]))
        }),
        ({
            let e = ExpressionV::ConstructorApplication(constructor, arguments);
            check_expression(e, env) is Ok ==> check_expression(e, env) == Ok::<TypeV, Failure>(
                TypeV::Algebraic(constructor.algebraic_type),
            )
        }),
        ({
            let e = ExpressionV::ConstructorApplication(constructor, arguments);
            let elements = constructor_elements(constructor);
            forall|k: int|
                0 <= k < arguments.len() && arguments.len() == elements.len() && (forall|i: int|
                    0 <= i < k ==> #[trigger] check_expression(arguments[i], env) == Ok::<
                        TypeV,
                        Failure,
                    >(elements[i])) && #[trigger] check_expression(arguments[k], env) != Ok::<
                    TypeV,
                    Failure,
                >(elements[k]) ==> check_expression(e, env) == Err::<TypeV, Failure>(
                    expectation_failure(check_expression(arguments[k], env), elements[k]),
                )
        }),
{
    let elements = constructor_elements(constructor);
    if arguments.len() == elements.len() {
        lemma_check_arguments(arguments, elements, env);
        assert forall|k: int|
            0 <= k < arguments.len() && (forall|i: int|
                0 <= i < k ==> #[trigger] check_expression(arguments[i], env) == Ok::<
                    TypeV,
                    Failure,
                >(elements[i])) && #[trigger] check_expression(arguments[k], env) != Ok::<
                TypeV,
                Failure,
            >(elements[k]) implies check_arguments(arguments, elements, env) == Err::<(), Failure>(
            expectation_failure(check_expression(arguments[k], env), elements[k]),
        ) by {
            lemma_first_failing_argument(arguments, elements, env, k);
        }
    }
}

/// What checking an expression that should have type `expected` fails with,
/// where it fails: its own failure, or the mismatch of its type.
pub open spec fn expectation_failure(r: Result<TypeV, Failure>, expected: TypeV) -> Failure {
    match r {
        Err(f) => f,
        Ok(t) => Failure::Error(TypeCheckErrorV::TypesNotMatched(t, expected)),
    }
}

proof fn lemma_first_failing_argument(
    arguments: Seq<ExpressionV>,
    elements: Seq<TypeV>,
    env: Environment,
    k: int,
)
    requires
        arguments.len() == elements.len(),
        0 <= k < arguments.len(),
        forall|i: int|
            0 <= i < k ==> #[trigger] check_expression(arguments[i], env) == Ok::<TypeV, Failure>(
                elements[i],
            ),
        check_expression(arguments[k], env) != Ok::<TypeV, Failure>(elements[k]),
    ensures
        check_arguments(arguments, elements, env) == Err::<(), Failure>(
            expectation_failure(check_expression(arguments[k], env), elements[k]),
        ),
    decreases k,
{
    if k > 0 {
        let rest = arguments.subrange(1, arguments.len() as int);
        let rest_elements = elements.subrange(1, elements.len() as int);
        assert(check_expression(arguments[0], env) == Ok::<TypeV, Failure>(elements[0]));
        assert forall|i: int| 0 <= i < k - 1 implies #[trigger] check_expression(rest[i], env)
            == Ok::<TypeV, Failure>(rest_elements[i]) by {
            assert(rest[i] == arguments[i + 1]);
            assert(check_expression(arguments[i + 1], env) == Ok::<TypeV, Failure>(elements[i + 1]));
        }
        assert(rest[k - 1] == arguments[k]);
        lemma_first_failing_argument(rest, rest_elements, env, k - 1);
    }
}

/// A function application checks its function first: a function's result
/// type where the argument has its argument type, a mismatch of the two
/// types where it has not, and a refusal where the function is no function.
pub proof fn function_application_law(function: ExpressionV, argument: ExpressionV, env: Environment)
    ensures
        check_expression(
            ExpressionV::FunctionApplication(Box::new(function), Box::new(argument)),
            env,
        ) == match check_expression(function, env) {
            Err(f) => Err(f),
            Ok(TypeV::Function(argument_type, result_type)) => match check_expression(
                argument,
                env,
            ) {
                Err(f) => Err(f),
                Ok(t) => if t == *argument_type {
                    Ok(*result_type)
                } else {
                    Err(Failure::Error(TypeCheckErrorV::TypesNotMatched(t, *argument_type)))
                },
            },
            Ok(_) => Err(Failure::Error(TypeCheckErrorV::FunctionExpected(function))),
        },
{
}

/// A let expression checks its bound expression against the declared type,
/// then its body with the name bound to that type on top of the outer
/// variables.
pub proof fn let_law(
    name: Seq<char>,
    t: TypeV,
    bound: ExpressionV,
    body: ExpressionV,
    env: Environment,
)
    ensures
        check_expression(ExpressionV::Let(name, t, Box::new(bound), Box::new(body)), env)
            == match check_expression(bound, env) {
            Err(f) => Err(f),
            Ok(b) => if b == t {
                check_expression(body, env.push((name, t)))
            } else {
                Err(Failure::Error(TypeCheckErrorV::TypesNotMatched(b, t)))
            },
        },
{
}

proof fn lemma_check_definitions(definitions: Seq<crate::ir::DefinitionV>, env: Environment)
    ensures
        check_definitions(definitions, env) is Ok <==> forall|i: int|
            0 <= i < definitions.len() ==> #[trigger] check_definition(definitions[i], env) is Ok,
    decreases definitions.len(),
{
    if definitions.len() > 0 {
        let rest = definitions.subrange(1, definitions.len() as int);
        lemma_check_definitions(rest, env);
        assert forall|j: int| 0 <= j < rest.len() implies rest[j] == definitions[j + 1] by {}
        if check_definition(definitions[0], env) is Ok {
            if forall|i: int| 0 <= i < rest.len() ==> #[trigger] check_definition(rest[i], env) is Ok {
                assert forall|i: int| 0 <= i < definitions.len() implies #[trigger] check_definition(
                    definitions[i],
                    env,
                ) is Ok by {
                    if i > 0 {
                        assert(check_definition(rest[i - 1], env) is Ok);
                    }
                }
            }
            if forall|i: int| 0 <= i < definitions.len() ==> #[trigger] check_definition(definitions[i], env) is Ok {
                assert forall|i: int| 0 <= i < rest.len() implies #[trigger] check_definition(
                    rest[i],
                    env,
                ) is Ok by {
                    assert(check_definition(definitions[i + 1], env) is Ok);
                }
            }
        }
    }
}

/// A module checks exactly when every definition checks against the types
/// of all globals of the module, those defined after it included; where it
/// fails, it fails as its first failing definition does.
pub proof fn module_law(m: ModuleV)
    ensures
        check_module(m) is Ok <==> forall|i: int|
            0 <= i < m.definitions.len() ==> #[trigger] check_definition(
                m.definitions[i],
                module_environment(m),
            ) is Ok,
        forall|k: int|
            0 <= k < m.definitions.len() && (forall|i: int|
                0 <= i < k ==> #[trigger] check_definition(
                    m.definitions[i],
                    module_environment(m),
                ) is Ok) && #[trigger] check_definition(m.definitions[k], module_environment(m))
                is Err ==> check_module(m) == check_definition(
                m.definitions[k],
                module_environment(m),
            ),
{
    lemma_check_definitions(m.definitions, module_environment(m));
    assert forall|k: int|
        0 <= k < m.definitions.len() && (forall|i: int|
            0 <= i < k ==> #[trigger] check_definition(m.definitions[i], module_environment(m))
                is Ok) && #[trigger] check_definition(m.definitions[k], module_environment(m))
            is Err implies check_module(m) == check_definition(
        m.definitions[k],
        module_environment(m),
    ) by {
        lemma_first_failing_definition(m.definitions, module_environment(m), k);
    }
}

proof fn lemma_first_failing_definition(
    definitions: Seq<crate::ir::DefinitionV>,
    env: Environment,
    k: int,
)
    requires
        0 <= k < definitions.len(),
        forall|i: int| 0 <= i < k ==> #[trigger] check_definition(definitions[i], env) is Ok,
        check_definition(definitions[k], env) is Err,
    ensures
        check_definitions(definitions, env) == check_definition(definitions[k], env),
    decreases k,
{
    if k > 0 {
        let rest = definitions.subrange(1, definitions.len() as int);
        assert(check_definition(definitions[0], env) is Ok);
        assert forall|i: int| 0 <= i < k - 1 implies #[trigger] check_definition(rest[i], env) is Ok by {
            assert(rest[i] == definitions[i + 1]);
            assert(check_definition(definitions[i + 1], env) is Ok);
        }
        assert(rest[k - 1] == definitions[k]);
        lemma_first_failing_definition(rest, env, k - 1);
    }
}

/// Two environments give every name the same type.
pub open spec fn same_lookups(one: Environment, other: Environment) -> bool {
    forall|x: Seq<char>| #[trigger] lookup(one, x) == lookup(other, x)
}

proof fn lemma_lookup_append(e: Environment, s: Environment, x: Seq<char>)
    ensures
        lookup(e + s, x) == if lookup(s, x) is Some {
            lookup(s, x)
        } else {
            lookup(e, x)
        },
    decreases s.len(),
{
    if s.len() > 0 {
        assert((e + s).drop_last() =~= e + s.drop_last());
        assert((e + s).last() == s.last());
        lemma_lookup_append(e, s.drop_last(), x);
    } else {
        assert(e + s =~= e);
    }
}

proof fn lemma_same_lookups_append(one: Environment, other: Environment, s: Environment)
    requires
        same_lookups(one, other),
    ensures
        same_lookups(one + s, other + s),
{
    assert forall|x: Seq<char>| #[trigger] lookup(one + s, x) == lookup(other + s, x) by {
        lemma_lookup_append(one, s, x);
        lemma_lookup_append(other, s, x);
    }
}

proof fn lemma_same_lookups_push(one: Environment, other: Environment, b: (Seq<char>, TypeV))
    requires
        same_lookups(one, other),
    ensures
        same_lookups(one.push(b), other.push(b)),
{
    assert forall|x: Seq<char>| #[trigger] lookup(one.push(b), x) == lookup(other.push(b), x) by {
        assert(one.push(b).drop_last() =~= one);
        assert(other.push(b).drop_last() =~= other);
        assert(lookup(one, x) == lookup(other, x));
    }
}

/// Checking an expression depends on its environment only through the types
/// that the environment gives names.
pub proof fn check_expression_depends_on_lookups(e: ExpressionV, one: Environment, other: Environment)
    requires
        same_lookups(one, other),
    ensures
        check_expression(e, one) == check_expression(e, other),
    decreases e,
{
    match e {
        ExpressionV::Bitcast(x, _) => check_expression_depends_on_lookups(*x, one, other),
        ExpressionV::AlgebraicCase(argument, alternatives, default) => {
            check_expression_depends_on_lookups(*argument, one, other);
            if check_expression(*argument, one) is Ok {
                let a = check_expression(*argument, one)->Ok_0;
                lemma_algebraic_alternatives_depend_on_lookups(alternatives, a, one, other, None);
                if check_algebraic_alternatives(alternatives, a, one, None) is Ok {
                    lemma_default_depends_on_lookups(
                        e,
                        default,
                        check_algebraic_alternatives(alternatives, a, one, None)->Ok_0,
                        one,
                        other,
                    );
                }
            }
        },
        ExpressionV::PrimitiveCase(argument, alternatives, default) => {
            check_expression_depends_on_lookups(*argument, one, other);
            if check_expression(*argument, one) is Ok {
                let a = check_expression(*argument, one)->Ok_0;
                lemma_primitive_alternatives_depend_on_lookups(alternatives, a, one, other, None);
                if check_primitive_alternatives(alternatives, a, one, None) is Ok {
                    lemma_default_depends_on_lookups(
                        e,
                        default,
                        check_primitive_alternatives(alternatives, a, one, None)->Ok_0,
                        one,
                        other,
                    );
                }
            }
        },
        ExpressionV::ConstructorApplication(c, arguments) => {
            if constructor_in_range(c) && arguments.len() == constructor_elements(c).len() {
                lemma_arguments_depend_on_lookups(arguments, constructor_elements(c), one, other);
            }
        },
        ExpressionV::FunctionApplication(f, a) => {
            check_expression_depends_on_lookups(*f, one, other);
            check_expression_depends_on_lookups(*a, one, other);
        },
        ExpressionV::LetRecursive(definitions, x) => {
            let bindings = definitions.map_values(
                |d: FunctionDefinitionV| (d.name, definition_type(d)),
            );
            lemma_same_lookups_append(one, other, bindings);
            lemma_definitions_depend_on_lookups(definitions, one + bindings, other + bindings);
            check_expression_depends_on_lookups(*x, one + bindings, other + bindings);
        },
        ExpressionV::Let(name, t, bound, x) => {
            check_expression_depends_on_lookups(*bound, one, other);
            lemma_same_lookups_push(one, other, (name, t));
            check_expression_depends_on_lookups(*x, one.push((name, t)), other.push((name, t)));
        },
        ExpressionV::Primitive(_) => {},
        ExpressionV::PrimitiveOperation(_, lhs, rhs) => {
            check_expression_depends_on_lookups(*lhs, one, other);
            check_expression_depends_on_lookups(*rhs, one, other);
        },
        ExpressionV::Variable(name) => {
            assert(lookup(one, name) == lookup(other, name));
        },
    }
}

proof fn lemma_default_depends_on_lookups(
    case: ExpressionV,
    default: Option<Box<ExpressionV>>,
    agreed: Option<TypeV>,
    one: Environment,
    other: Environment,
)
    requires
        same_lookups(one, other),
    ensures
        check_default(case, default, agreed, one) == check_default(case, default, agreed, other),
    decreases default,
{
    match default {
        Some(d) => check_expression_depends_on_lookups(*d, one, other),
        None => {},
    }
}

proof fn lemma_algebraic_alternatives_depend_on_lookups(
    alternatives: Seq<AlgebraicAlternativeV>,
    argument_type: TypeV,
    one: Environment,
    other: Environment,
    agreed: Option<TypeV>,
)
    requires
        same_lookups(one, other),
    ensures
        check_algebraic_alternatives(alternatives, argument_type, one, agreed)
            == check_algebraic_alternatives(alternatives, argument_type, other, agreed),
    decreases alternatives,
{
    if alternatives.len() > 0 {
        let a = alternatives[0];
        let bindings = zip_bindings(a.element_names, constructor_elements(a.constructor));
        lemma_same_lookups_append(one, other, bindings);
        check_expression_depends_on_lookups(a.expression, one + bindings, other + bindings);
        let rest = alternatives.subrange(1, alternatives.len() as int);
        match check_expression(a.expression, one + bindings) {
            Ok(t) => {
                if merge(agreed, t) is Ok {
                    lemma_algebraic_alternatives_depend_on_lookups(
                        rest,
                        argument_type,
                        one,
                        other,
                        merge(agreed, t)->Ok_0,
                    );
                }
            },
            Err(_) => {},
        }
    }
}

proof fn lemma_primitive_alternatives_depend_on_lookups(
    alternatives: Seq<PrimitiveAlternativeV>,
    argument_type: TypeV,
    one: Environment,
    other: Environment,
    agreed: Option<TypeV>,
)
    requires
        same_lookups(one, other),
    ensures
        check_primitive_alternatives(alternatives, argument_type, one, agreed)
            == check_primitive_alternatives(alternatives, argument_type, other, agreed),
    decreases alternatives,
{
    if alternatives.len() > 0 {
        let a = alternatives[0];
        check_expression_depends_on_lookups(a.expression, one, other);
        let rest = alternatives.subrange(1, alternatives.len() as int);
        match check_expression(a.expression, one) {
            Ok(t) => {
                if merge(agreed, t) is Ok {
                    lemma_primitive_alternatives_depend_on_lookups(
                        rest,
                        argument_type,
                        one,
                        other,
                        merge(agreed, t)->Ok_0,
                    );
                }
            },
            Err(_) => {},
        }
    }
}

proof fn lemma_arguments_depend_on_lookups(
    arguments: Seq<ExpressionV>,
    elements: Seq<TypeV>,
    one: Environment,
    other: Environment,
)
    requires
        same_lookups(one, other),
    ensures
        check_arguments(arguments, elements, one) == check_arguments(arguments, elements, other),
    decreases arguments,
{
    if arguments.len() > 0 {
        check_expression_depends_on_lookups(arguments[0], one, other);
        lemma_arguments_depend_on_lookups(
            arguments.subrange(1, arguments.len() as int),
            elements.subrange(1, elements.len() as int),
            one,
            other,
        );
    }
}

proof fn lemma_definition_depends_on_lookups(
    d: FunctionDefinitionV,
    one: Environment,
    other: Environment,
)
    requires
        same_lookups(one, other),
    ensures
        check_function_definition(d, one) == check_function_definition(d, other),
    decreases d,
{
    let bindings = crate::analysis::type_check::argument_bindings(d.environment)
        + crate::analysis::type_check::argument_bindings(d.arguments);
    lemma_same_lookups_append(one, other, bindings);
    assert(one + crate::analysis::type_check::argument_bindings(d.environment)
        + crate::analysis::type_check::argument_bindings(d.arguments) =~= one + bindings);
    assert(other + crate::analysis::type_check::argument_bindings(d.environment)
        + crate::analysis::type_check::argument_bindings(d.arguments) =~= other + bindings);
    check_expression_depends_on_lookups(d.body, one + bindings, other + bindings);
}

proof fn lemma_definitions_depend_on_lookups(
    definitions: Seq<FunctionDefinitionV>,
    one: Environment,
    other: Environment,
)
    requires
        same_lookups(one, other),
    ensures
        check_function_definitions(definitions, one) == check_function_definitions(
            definitions,
            other,
        ),
    decreases definitions,
{
    if definitions.len() > 0 {
        lemma_definition_depends_on_lookups(definitions[0], one, other);
        lemma_definitions_depend_on_lookups(
            definitions.subrange(1, definitions.len() as int),
            one,
            other,
        );
    }
}

proof fn lemma_global_depends_on_lookups(d: DefinitionV, one: Environment, other: Environment)
    requires
        same_lookups(one, other),
    ensures
        check_definition(d, one) == check_definition(d, other),
{
    match d {
        DefinitionV::Function(f) => lemma_definition_depends_on_lookups(f, one, other),
        DefinitionV::Value(v) => check_expression_depends_on_lookups(v.body, one, other),
    }
}

/// Some index below `n` is sent to `j`.
pub open spec fn reaches(p: Seq<int>, n: int, j: int) -> bool {
    exists|i: int| 0 <= i < n && #[trigger] p[i] == j
}

/// `p` reorders `n` indices: each of them once.
pub open spec fn is_permutation(p: Seq<int>, n: int) -> bool {
    &&& p.len() == n
    &&& p.no_duplicates()
    &&& forall|i: int| 0 <= i < n ==> 0 <= #[trigger] p[i] < n
    &&& forall|j: int| 0 <= j < n ==> #[trigger] reaches(p, n, j)
}

proof fn lemma_lookup_last(b: Environment, x: Seq<char>, i: int)
    requires
        0 <= i < b.len(),
        b[i].0 == x,
        forall|j: int| i < j < b.len() ==> (#[trigger] b[j]).0 != x,
    ensures
        lookup(b, x) == Some(b[i].1),
    decreases b.len(),
{
    if i < b.len() - 1 {
        assert(b[b.len() - 1].0 != x);
        lemma_lookup_last(b.drop_last(), x, i);
    }
}

proof fn lemma_lookup_missing(b: Environment, x: Seq<char>)
    requires
        forall|j: int| 0 <= j < b.len() ==> (#[trigger] b[j]).0 != x,
    ensures
        lookup(b, x) is None,
    decreases b.len(),
{
    if b.len() > 0 {
        assert(b[b.len() - 1].0 != x);
        lemma_lookup_missing(b.drop_last(), x);
    }
}

/// The bindings of definitions with distinct names give each name the type
/// of the definition of that name, or nothing.
proof fn lemma_definition_bindings(definitions: Seq<DefinitionV>, x: Seq<char>)
    requires
        distinct_names(definitions),
    ensures
        (exists|i: int| 0 <= i < definitions.len() && global_name(#[trigger] definitions[i]) == x)
            ==> lookup(
            definitions.map_values(|d: DefinitionV| (global_name(d), global_type(d))),
            x,
        ) == Some(
            global_type(
                definitions[choose|i: int|
                    0 <= i < definitions.len() && global_name(#[trigger] definitions[i]) == x],
            ),
        ),
        !(exists|i: int| 0 <= i < definitions.len() && global_name(#[trigger] definitions[i]) == x)
            ==> lookup(
            definitions.map_values(|d: DefinitionV| (global_name(d), global_type(d))),
            x,
        ) is None,
{
    let b = definitions.map_values(|d: DefinitionV| (global_name(d), global_type(d)));
    if exists|i: int| 0 <= i < definitions.len() && global_name(#[trigger] definitions[i]) == x {
        let i = choose|i: int| 0 <= i < definitions.len() && global_name(#[trigger] definitions[i]) == x;
        assert forall|j: int| i < j < b.len() implies (#[trigger] b[j]).0 != x by {
            assert(global_name(definitions[j]) != global_name(definitions[i]));
        }
        lemma_lookup_last(b, x, i);
    } else {
        assert forall|j: int| 0 <= j < b.len() implies (#[trigger] b[j]).0 != x by {
            assert(global_name(definitions[j]) != x);
        }
        lemma_lookup_missing(b, x);
    }
}

/// Where the definitions of a module have distinct names, whether it checks
/// does not depend on the order of its definitions.
pub proof fn module_check_ignores_definition_order(m: ModuleV, reordered: ModuleV, p: Seq<int>)
    requires
        distinct_names(m.definitions),
        reordered.foreign_declarations == m.foreign_declarations,
        reordered.declarations == m.declarations,
        reordered.definitions.len() == m.definitions.len(),
        is_permutation(p, m.definitions.len() as int),
        forall|i: int|
            0 <= i < m.definitions.len() ==> #[trigger] reordered.definitions[i]
                == m.definitions[p[i]],
    ensures
        check_module(m) is Ok <==> check_module(reordered) is Ok,
{
    let n = m.definitions.len() as int;
    let defs = m.definitions;
    let moved = reordered.definitions;
    assert(distinct_names(moved)) by {
        assert forall|i: int, j: int|
            0 <= i < n && 0 <= j < n && i != j implies global_name(#[trigger] moved[i])
            != global_name(#[trigger] moved[j]) by {
            assert(moved[i] == defs[p[i]] && moved[j] == defs[p[j]]);
            assert(p[i] != p[j]);
            assert(0 <= p[i] < n && 0 <= p[j] < n);
        }
    }
    let f = m.foreign_declarations.map_values(
        |d: crate::ir::ForeignDeclarationV| (d.name, d.type_),
    ) + m.declarations.map_values(|d: crate::ir::DeclarationV| (d.name, d.type_));
    let b1 = defs.map_values(|d: DefinitionV| (global_name(d), global_type(d)));
    let b2 = moved.map_values(|d: DefinitionV| (global_name(d), global_type(d)));
    assert(module_environment(m) == f + b1);
    assert(module_environment(reordered) == f + b2);
    assert forall|x: Seq<char>| #[trigger] lookup(b1, x) == lookup(b2, x) by {
        lemma_definition_bindings(defs, x);
        lemma_definition_bindings(moved, x);
        if exists|i: int| 0 <= i < n && global_name(#[trigger] defs[i]) == x {
            let i = choose|i: int| 0 <= i < n && global_name(#[trigger] defs[i]) == x;
            assert(reaches(p, n, i));
            let k = choose|k: int| 0 <= k < n && #[trigger] p[k] == i;
            assert(moved[k] == defs[i]);
            assert(global_name(moved[k]) == x);
            let i2 = choose|i: int| 0 <= i < n && global_name(#[trigger] moved[i]) == x;
            assert(i2 == k);
            let i1 = choose|i: int| 0 <= i < n && global_name(#[trigger] defs[i]) == x;
            assert(i1 == i);
        } else {
            assert forall|k: int| 0 <= k < n implies global_name(#[trigger] moved[k]) != x by {
                assert(moved[k] == defs[p[k]]);
                assert(0 <= p[k] < n);
            }
        }
    }
    assert forall|x: Seq<char>| #[trigger] lookup(module_environment(m), x) == lookup(
        module_environment(reordered),
        x,
    ) by {
        lemma_lookup_append(f, b1, x);
        lemma_lookup_append(f, b2, x);
        assert(lookup(b1, x) == lookup(b2, x));
    }
    let e1 = module_environment(m);
    let e2 = module_environment(reordered);
    module_law(m);
    module_law(reordered);
    if check_module(m) is Ok {
        assert forall|i: int| 0 <= i < n implies #[trigger] check_definition(moved[i], e2) is Ok by {
            assert(0 <= p[i] < n);
            assert(check_definition(defs[p[i]], e1) is Ok);
            lemma_global_depends_on_lookups(moved[i], e1, e2);
        }
    }
    if check_module(reordered) is Ok {
        assert forall|j: int| 0 <= j < n implies #[trigger] check_definition(defs[j], e1) is Ok by {
            assert(reaches(p, n, j));
            let k = choose|k: int| 0 <= k < n && #[trigger] p[k] == j;
            assert(moved[k] == defs[j]);
            assert(check_definition(moved[k], e2) is Ok);
            lemma_global_depends_on_lookups(defs[j], e1, e2);
        }
    }
}

/// The number of expression nodes in an expression.
pub open spec fn expression_size(e: ExpressionV) -> nat
    decreases e,
{
    match e {
        ExpressionV::Bitcast(x, _) => 1 + expression_size(*x),
        ExpressionV::AlgebraicCase(argument, alternatives, default) => 1 + expression_size(
            *argument,
        ) + algebraic_alternatives_size(alternatives) + default_size(default),
        ExpressionV::PrimitiveCase(argument, alternatives, default) => 1 + expression_size(
            *argument,
        ) + primitive_alternatives_size(alternatives) + default_size(default),
        ExpressionV::ConstructorApplication(_, arguments) => 1 + expressions_size(arguments),
        ExpressionV::FunctionApplication(f, a) => 1 + expression_size(*f) + expression_size(*a),
        ExpressionV::LetRecursive(definitions, x) => 1 + definitions_size(definitions)
            + expression_size(*x),
        ExpressionV::Let(_, _, bound, x) => 1 + expression_size(*bound) + expression_size(*x),
        ExpressionV::Primitive(_) => 1,
        ExpressionV::PrimitiveOperation(_, lhs, rhs) => 1 + expression_size(*lhs)
            + expression_size(*rhs),
        ExpressionV::Variable(_) => 1,
    }
}

pub open spec fn default_size(default: Option<Box<ExpressionV>>) -> nat
    decreases default,
{
    match default {
        Some(d) => expression_size(*d),
        None => 0,
    }
}

pub open spec fn expressions_size(s: Seq<ExpressionV>) -> nat
    decreases s,
{
    if s.len() == 0 {
        0
    } else {
        expression_size(s[0]) + expressions_size(s.subrange(1, s.len() as int))
    }
}

pub open spec fn algebraic_alternatives_size(s: Seq<AlgebraicAlternativeV>) -> nat
    decreases s,
{
    if s.len() == 0 {
        0
    } else {
        expression_size(s[0].expression) + algebraic_alternatives_size(
            s.subrange(1, s.len() as int),
        )
    }
}

pub open spec fn primitive_alternatives_size(s: Seq<PrimitiveAlternativeV>) -> nat
    decreases s,
{
    if s.len() == 0 {
        0
    } else {
        expression_size(s[0].expression) + primitive_alternatives_size(
            s.subrange(1, s.len() as int),
        )
    }
}

pub open spec fn definitions_size(s: Seq<FunctionDefinitionV>) -> nat
    decreases s,
{
    if s.len() == 0 {
        0
    } else {
        expression_size(s[0].body) + definitions_size(s.subrange(1, s.len() as int))
    }
}

pub open spec fn no_alternative(c: ExpressionV) -> Failure {
    Failure::Error(TypeCheckErrorV::NoAlternativeFound(c))
}

/// A case that checking reports without alternatives is the checked
/// expression itself or lies inside it.
proof fn lemma_no_alternative_inside(x: ExpressionV, env: Environment, c: ExpressionV)
    requires
        check_expression(x, env) == Err::<TypeV, Failure>(no_alternative(c)),
    ensures
        expression_size(c) <= expression_size(x),
    decreases x,
{
    match x {
        ExpressionV::Bitcast(y, _) => lemma_no_alternative_inside(*y, env, c),
        ExpressionV::AlgebraicCase(argument, alternatives, default) => {
            if check_expression(*argument, env) is Err {
                lemma_no_alternative_inside(*argument, env, c);
            } else {
                let at = check_expression(*argument, env)->Ok_0;
                let folded = check_algebraic_alternatives(alternatives, at, env, None);
                if folded is Err {
                    lemma_algebraic_no_alternative_inside(alternatives, at, env, None, c);
                } else {
                    lemma_default_no_alternative_inside(x, default, folded->Ok_0, env, c);
                }
            }
        },
        ExpressionV::PrimitiveCase(argument, alternatives, default) => {
            if check_expression(*argument, env) is Err {
                lemma_no_alternative_inside(*argument, env, c);
            } else {
                let at = check_expression(*argument, env)->Ok_0;
                let folded = check_primitive_alternatives(alternatives, at, env, None);
                if folded is Err {
                    lemma_primitive_no_alternative_inside(alternatives, at, env, None, c);
                } else {
                    lemma_default_no_alternative_inside(x, default, folded->Ok_0, env, c);
                }
            }
        },
        ExpressionV::ConstructorApplication(constructor, arguments) => {
            if constructor_in_range(constructor) && arguments.len() == constructor_elements(
                constructor,
            ).len() {
                lemma_arguments_no_alternative_inside(
                    arguments,
                    constructor_elements(constructor),
                    env,
                    c,
                );
            }
        },
        ExpressionV::FunctionApplication(f, a) => {
            if check_expression(*f, env) is Err {
                lemma_no_alternative_inside(*f, env, c);
            } else if check_expression(*a, env) is Err {
                lemma_no_alternative_inside(*a, env, c);
            }
        },
        ExpressionV::LetRecursive(definitions, y) => {
            let inner = env + definitions.map_values(
                |d: FunctionDefinitionV| (d.name, definition_type(d)),
            );
            if check_function_definitions(definitions, inner) is Err {
                lemma_definitions_no_alternative_inside(definitions, inner, c);
            } else {
                lemma_no_alternative_inside(*y, inner, c);
            }
        },
        ExpressionV::Let(name, t, bound, y) => {
            if check_expression(*bound, env) is Err {
                lemma_no_alternative_inside(*bound, env, c);
            } else {
                lemma_no_alternative_inside(*y, env.push((name, t)), c);
            }
        },
        ExpressionV::Primitive(_) => {},
        ExpressionV::PrimitiveOperation(_, lhs, rhs) => {
            if check_expression(*lhs, env) is Err {
                lemma_no_alternative_inside(*lhs, env, c);
            } else if check_expression(*rhs, env) is Err {
                lemma_no_alternative_inside(*rhs, env, c);
            }
        },
        ExpressionV::Variable(_) => {},
    }
}

proof fn lemma_default_no_alternative_inside(
    case: ExpressionV,
    default: Option<Box<ExpressionV>>,
    agreed: Option<TypeV>,
    env: Environment,
    c: ExpressionV,
)
    requires
        check_default(case, default, agreed, env) == Err::<TypeV, Failure>(no_alternative(c)),
    ensures
        c == case || expression_size(c) <= default_size(default),
    decreases default,
{
    match default {
        Some(d) => {
            if check_expression(*d, env) is Err {
                lemma_no_alternative_inside(*d, env, c);
            }
        },
        None => {},
    }
}

proof fn lemma_algebraic_no_alternative_inside(
    alternatives: Seq<AlgebraicAlternativeV>,
    argument_type: TypeV,
    env: Environment,
    agreed: Option<TypeV>,
    c: ExpressionV,
)
    requires
        check_algebraic_alternatives(alternatives, argument_type, env, agreed) == Err::<
            Option<TypeV>,
            Failure,
        >(no_alternative(c)),
    ensures
        expression_size(c) <= algebraic_alternatives_size(alternatives),
    decreases alternatives,
{
    if alternatives.len() > 0 {
        let a = alternatives[0];
        let inner = env + zip_bindings(a.element_names, constructor_elements(a.constructor));
        let rest = alternatives.subrange(1, alternatives.len() as int);
        if check_expression(a.expression, inner) is Err {
            lemma_no_alternative_inside(a.expression, inner, c);
        } else {
            let t = check_expression(a.expression, inner)->Ok_0;
            if merge(agreed, t) is Ok {
                lemma_algebraic_no_alternative_inside(
                    rest,
                    argument_type,
                    env,
                    merge(agreed, t)->Ok_0,
                    c,
                );
            }
        }
    }
}

proof fn lemma_primitive_no_alternative_inside(
    alternatives: Seq<PrimitiveAlternativeV>,
    argument_type: TypeV,
    env: Environment,
    agreed: Option<TypeV>,
    c: ExpressionV,
)
    requires
        check_primitive_alternatives(alternatives, argument_type, env, agreed) == Err::<
            Option<TypeV>,
            Failure,
        >(no_alternative(c)),
    ensures
        expression_size(c) <= primitive_alternatives_size(alternatives),
    decreases alternatives,
{
    if alternatives.len() > 0 {
        let a = alternatives[0];
        let rest = alternatives.subrange(1, alternatives.len() as int);
        if check_expression(a.expression, env) is Err {
            lemma_no_alternative_inside(a.expression, env, c);
        } else {
            let t = check_expression(a.expression, env)->Ok_0;
            if merge(agreed, t) is Ok {
                lemma_primitive_no_alternative_inside(
                    rest,
                    argument_type,
                    env,
                    merge(agreed, t)->Ok_0,
                    c,
                );
            }
        }
    }
}

proof fn lemma_arguments_no_alternative_inside(
    arguments: Seq<ExpressionV>,
    elements: Seq<TypeV>,
    env: Environment,
    c: ExpressionV,
)
    requires
        check_arguments(arguments, elements, env) == Err::<(), Failure>(no_alternative(c)),
    ensures
        expression_size(c) <= expressions_size(arguments),
    decreases arguments,
{
    if arguments.len() > 0 {
        if check_expression(arguments[0], env) is Err {
            lemma_no_alternative_inside(arguments[0], env, c);
        } else {
            lemma_arguments_no_alternative_inside(
                arguments.subrange(1, arguments.len() as int),
                elements.subrange(1, elements.len() as int),
                env,
                c,
            );
        }
    }
}

proof fn lemma_definitions_no_alternative_inside(
    definitions: Seq<FunctionDefinitionV>,
    env: Environment,
    c: ExpressionV,
)
    requires
        check_function_definitions(definitions, env) == Err::<(), Failure>(no_alternative(c)),
    ensures
        expression_size(c) <= definitions_size(definitions),
    decreases definitions,
{
    if definitions.len() > 0 {
        let d = definitions[0];
        let inner = env + crate::analysis::type_check::argument_bindings(d.environment)
            + crate::analysis::type_check::argument_bindings(d.arguments);
        if check_function_definition(d, env) is Err {
            if check_expression(d.body, inner) is Err {
                lemma_no_alternative_inside(d.body, inner, c);
            }
        } else {
            lemma_definitions_no_alternative_inside(
                definitions.subrange(1, definitions.len() as int),
                env,
                c,
            );
        }
    }
}

/// An algebraic case whose argument checks is refused for having no
/// alternative exactly when it has neither alternatives nor a default.
pub proof fn algebraic_case_no_alternative_law(
    argument: ExpressionV,
    alternatives: Seq<AlgebraicAlternativeV>,
    default: Option<Box<ExpressionV>>,
    env: Environment,
)
    requires
        check_expression(argument, env) is Ok,
    ensures
        ({
            let e = ExpressionV::AlgebraicCase(Box::new(argument), alternatives, default);
            (check_expression(e, env) == Err::<TypeV, Failure>(no_alternative(e))) <==> (
            alternatives.len() == 0 && default is None)
        }),
{
    let e = ExpressionV::AlgebraicCase(Box::new(argument), alternatives, default);
    let at = check_expression(argument, env)->Ok_0;
    algebraic_case_law(argument, alternatives, default, env, at);
    let folded = check_algebraic_alternatives(alternatives, at, env, None);
    lemma_algebraic_alternatives(alternatives, at, env, None, at);
    assert(check_expression(e, env) == match folded {
        Err(f) => Err(f),
        Ok(agreed) => check_default(e, default, agreed, env),
    });
    assert(expression_size(e) == 1 + expression_size(argument) + algebraic_alternatives_size(
        alternatives,
    ) + default_size(default));
    if check_expression(e, env) == Err::<TypeV, Failure>(no_alternative(e)) {
        if folded is Err {
            lemma_algebraic_no_alternative_inside(alternatives, at, env, None, e);
        } else {
            let agreed = folded->Ok_0;
            match default {
                Some(d) => {
                    assert(default_size(default) == expression_size(*d));
                    if check_expression(*d, env) is Err {
                        lemma_no_alternative_inside(*d, env, e);
                    }
                    assert(check_default(e, default, agreed, env) == match (match check_expression(
                        *d,
                        env,
                    ) {
                        Err(f) => Err(f),
                        Ok(u) => merge(agreed, u),
                    }) {
                        Err(f) => Err(f),
                        Ok(Some(u)) => Ok(u),
                        Ok(None) => Err(no_alternative(e)),
                    });
                },
                None => {
                    assert(check_default(e, default, agreed, env) == match agreed {
                        Some(u) => Ok(u),
                        None => Err::<TypeV, Failure>(no_alternative(e)),
                    });
                },
            }
        }
    }
}

/// A primitive case whose argument checks is refused for having no
/// alternative exactly when it has neither alternatives nor a default.
pub proof fn primitive_case_no_alternative_law(
    argument: ExpressionV,
    alternatives: Seq<PrimitiveAlternativeV>,
    default: Option<Box<ExpressionV>>,
    env: Environment,
)
    requires
        check_expression(argument, env) is Ok,
    ensures
        ({
            let e = ExpressionV::PrimitiveCase(Box::new(argument), alternatives, default);
            (check_expression(e, env) == Err::<TypeV, Failure>(no_alternative(e))) <==> (
            alternatives.len() == 0 && default is None)
        }),
{
    let e = ExpressionV::PrimitiveCase(Box::new(argument), alternatives, default);
    let at = check_expression(argument, env)->Ok_0;
    primitive_case_law(argument, alternatives, default, env, at);
    let folded = check_primitive_alternatives(alternatives, at, env, None);
    lemma_primitive_alternatives(alternatives, at, env, None, at);
    assert(check_expression(e, env) == match folded {
        Err(f) => Err(f),
        Ok(agreed) => check_default(e, default, agreed, env),
    });
    assert(expression_size(e) == 1 + expression_size(argument) + primitive_alternatives_size(
        alternatives,
    ) + default_size(default));
    if check_expression(e, env) == Err::<TypeV, Failure>(no_alternative(e)) {
        if folded is Err {
            lemma_primitive_no_alternative_inside(alternatives, at, env, None, e);
        } else {
            let agreed = folded->Ok_0;
            match default {
                Some(d) => {
                    assert(default_size(default) == expression_size(*d));
                    if check_expression(*d, env) is Err {
                        lemma_no_alternative_inside(*d, env, e);
                    }
                    assert(check_default(e, default, agreed, env) == match (match check_expression(
                        *d,
                        env,
                    ) {
                        Err(f) => Err(f),
                        Ok(u) => merge(agreed, u),
                    }) {
                        Err(f) => Err(f),
                        Ok(Some(u)) => Ok(u),
                        Ok(None) => Err(no_alternative(e)),
                    });
                },
                None => {
                    assert(check_default(e, default, agreed, env) == match agreed {
                        Some(u) => Ok(u),
                        None => Err::<TypeV, Failure>(no_alternative(e)),
                    });
                },
            }
        }
    }
}

/// A primitive operation checks its left operand, then its right one. Two
/// operands of one primitive type give that type to an arithmetic operation
/// and the 8-bit integer type to a comparison; operands of different types,
/// or of a type that is no primitive, are refused with the mismatch of the
/// two types.
pub proof fn primitive_operation_law(
    operator: crate::ir::PrimitiveOperator,
    lhs: ExpressionV,
    rhs: ExpressionV,
    env: Environment,
)
    ensures
        ({
            let e = ExpressionV::PrimitiveOperation(operator, Box::new(lhs), Box::new(rhs));
            let l = check_expression(lhs, env);
            let r = check_expression(rhs, env);
            &&& l is Err ==> check_expression(e, env) == l
            &&& l is Ok && r is Err ==> check_expression(e, env) == Err::<TypeV, Failure>(
                r->Err_0,
            )
            &&& l is Ok && r is Ok && (l->Ok_0 != r->Ok_0 || !(l->Ok_0 is Primitive))
                ==> check_expression(e, env) == Err::<TypeV, Failure>(
                Failure::Error(TypeCheckErrorV::TypesNotMatched(l->Ok_0, r->Ok_0)),
            )
            &&& l is Ok && r is Ok && l->Ok_0 == r->Ok_0 && l->Ok_0 is Primitive ==> (
            check_expression(e, env) == Ok::<TypeV, Failure>(
                match operator {
                    crate::ir::PrimitiveOperator::Add | crate::ir::PrimitiveOperator::Subtract
                    | crate::ir::PrimitiveOperator::Multiply
                    | crate::ir::PrimitiveOperator::Divide => l->Ok_0,
                    _ => TypeV::Primitive(crate::types::Primitive::Integer8),
                },
            ))
        }),
{
}

} // verus!
