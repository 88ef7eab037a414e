//! Laws of environment inference: it leaves the free variables of an
//! expression as they are, and inferring a second time changes nothing.
use crate::analysis::type_check::Environment;
use crate::environment::{
    algebraic_alternatives_inferable, default_inferable, definition_inferable,
    definitions_inferable, expressions_inferable, inferable, primitive_alternatives_inferable,
    alternative_variables, inferred_environment, infer, infer_algebraic_alternative, infer_algebraic_alternatives,
    infer_default, infer_definition, infer_definitions, infer_expressions,
    infer_primitive_alternatives, let_recursive_bindings,
};
use crate::free_variables::{
    algebraic_alternatives_occurrences, argument_names, distinct, lemma_extend_distinct, default_occurrences, definition_names,
    definition_occurrences, definitions_occurrences, expressions_occurrences, occurrences,
    primitive_alternatives_occurrences,
};
use crate::analysis::type_check::lookup;
use crate::ir::{
    ArgumentV, AlgebraicAlternativeV, ExpressionV, FunctionDefinitionV, PrimitiveAlternativeV,
};
use vstd::prelude::*;

verus! {

proof fn lemma_infer_expressions_shape(s: Seq<ExpressionV>, v: Environment, g: Seq<Seq<char>>)
    ensures
        infer_expressions(s, v, g).len() == s.len(),
        forall|i: int| 0 <= i < s.len() ==> #[trigger] infer_expressions(s, v, g)[i] == infer(s[i], v, g),
    decreases s.len(),
{
    if s.len() > 0 {
        let p = s.subrange(0, s.len() - 1);
        lemma_infer_expressions_shape(p, v, g);
        assert forall|i: int| 0 <= i < s.len() implies #[trigger] infer_expressions(s, v, g)[i]
            == infer(s[i], v, g) by {
            if i < p.len() {
                assert(p[i] == s[i]);
            }
        }
    }
}

proof fn lemma_infer_algebraic_alternatives_shape(
    s: Seq<AlgebraicAlternativeV>,
    v: Environment,
    g: Seq<Seq<char>>,
)
    ensures
        infer_algebraic_alternatives(s, v, g).len() == s.len(),
        forall|i: int|
            0 <= i < s.len() ==> #[trigger] infer_algebraic_alternatives(s, v, g)[i]
                == infer_algebraic_alternative(s[i], v, g),
    decreases s.len(),
{
    if s.len() > 0 {
        let p = s.subrange(0, s.len() - 1);
        lemma_infer_algebraic_alternatives_shape(p, v, g);
        assert forall|i: int| 0 <= i < s.len() implies #[trigger] infer_algebraic_alternatives(
            s,
            v,
            g,
        )[i] == infer_algebraic_alternative(s[i], v, g) by {
            if i < p.len() {
                assert(p[i] == s[i]);
            }
        }
    }
}

proof fn lemma_infer_primitive_alternatives_shape(
    s: Seq<PrimitiveAlternativeV>,
    v: Environment,
    g: Seq<Seq<char>>,
)
    ensures
        infer_primitive_alternatives(s, v, g).len() == s.len(),
        forall|i: int|
            0 <= i < s.len() ==> #[trigger] infer_primitive_alternatives(s, v, g)[i] == (
            PrimitiveAlternativeV {
                primitive: s[i].primitive,
                expression: infer(s[i].expression, v, g),
            }),
    decreases s.len(),
{
    if s.len() > 0 {
        let p = s.subrange(0, s.len() - 1);
        lemma_infer_primitive_alternatives_shape(p, v, g);
        assert forall|i: int| 0 <= i < s.len() implies #[trigger] infer_primitive_alternatives(
            s,
            v,
            g,
        )[i] == (PrimitiveAlternativeV {
            primitive: s[i].primitive,
            expression: infer(s[i].expression, v, g),
        }) by {
            if i < p.len() {
                assert(p[i] == s[i]);
            }
        }
    }
}

proof fn lemma_infer_definitions_shape(s: Seq<FunctionDefinitionV>, v: Environment, g: Seq<Seq<char>>)
    ensures
        infer_definitions(s, v, g).len() == s.len(),
        forall|i: int|
            0 <= i < s.len() ==> #[trigger] infer_definitions(s, v, g)[i] == infer_definition(
                s[i],
                v,
                g,
            ),
        definition_names(infer_definitions(s, v, g)) == definition_names(s),
        let_recursive_bindings(infer_definitions(s, v, g)) == let_recursive_bindings(s),
    decreases s.len(),
{
    if s.len() > 0 {
        let p = s.subrange(0, s.len() - 1);
        lemma_infer_definitions_shape(p, v, g);
        assert forall|i: int| 0 <= i < s.len() implies #[trigger] infer_definitions(s, v, g)[i]
            == infer_definition(s[i], v, g) by {
            if i < p.len() {
                assert(p[i] == s[i]);
            }
        }
    }
    let t = infer_definitions(s, v, g);
    assert(definition_names(t) =~= definition_names(s));
    assert(let_recursive_bindings(t) =~= let_recursive_bindings(s));
}

/// Inference leaves the free variables of an expression as they are.
pub proof fn lemma_infer_occurrences(
    e: ExpressionV,
    v: Environment,
    g: Seq<Seq<char>>,
    x: Seq<Seq<char>>,
)
    ensures
        occurrences(infer(e, v, g), x) == occurrences(e, x),
    decreases e,
{
    match e {
        ExpressionV::Bitcast(y, _) => lemma_infer_occurrences(*y, v, g, x),
        ExpressionV::AlgebraicCase(argument, alternatives, default) => {
            lemma_infer_occurrences(*argument, v, g, x);
            lemma_infer_algebraic_alternatives_occurrences(alternatives, v, g, x);
            lemma_infer_default_occurrences(default, v, g, x);
        },
        ExpressionV::PrimitiveCase(argument, alternatives, default) => {
            lemma_infer_occurrences(*argument, v, g, x);
            lemma_infer_primitive_alternatives_occurrences(alternatives, v, g, x);
            lemma_infer_default_occurrences(default, v, g, x);
        },
        ExpressionV::ConstructorApplication(_, arguments) => {
            lemma_infer_expressions_occurrences(arguments, v, g, x);
        },
        ExpressionV::FunctionApplication(f, a) => {
            lemma_infer_occurrences(*f, v, g, x);
            lemma_infer_occurrences(*a, v, g, x);
        },
        ExpressionV::LetRecursive(definitions, y) => {
            let inner = v + let_recursive_bindings(definitions);
            let excluded = x + definition_names(definitions);
            lemma_infer_definitions_shape(definitions, inner, g);
            lemma_infer_definitions_occurrences(definitions, inner, g, excluded);
            lemma_infer_occurrences(*y, inner, g, excluded);
        },
        ExpressionV::Let(name, t, bound, y) => {
            lemma_infer_occurrences(*bound, v, g, x);
            lemma_infer_occurrences(*y, v.push((name, t)), g, x.push(name));
        },
        ExpressionV::Primitive(_) => {},
        ExpressionV::PrimitiveOperation(_, lhs, rhs) => {
            lemma_infer_occurrences(*lhs, v, g, x);
            lemma_infer_occurrences(*rhs, v, g, x);
        },
        ExpressionV::Variable(_) => {},
    }
}

proof fn lemma_infer_default_occurrences(
    default: Option<Box<ExpressionV>>,
    v: Environment,
    g: Seq<Seq<char>>,
    x: Seq<Seq<char>>,
)
    ensures
        default_occurrences(infer_default(default, v, g), x) == default_occurrences(default, x),
    decreases default,
{
    match default {
        Some(d) => lemma_infer_occurrences(*d, v, g, x),
        None => {},
    }
}

proof fn lemma_infer_expressions_occurrences(
    s: Seq<ExpressionV>,
    v: Environment,
    g: Seq<Seq<char>>,
    x: Seq<Seq<char>>,
)
    ensures
        expressions_occurrences(infer_expressions(s, v, g), x) == expressions_occurrences(s, x),
    decreases s,
{
    if s.len() > 0 {
        let p = s.subrange(0, s.len() - 1);
        lemma_infer_expressions_shape(p, v, g);
        lemma_infer_expressions_shape(s, v, g);
        let t = infer_expressions(s, v, g);
        assert(t.subrange(0, t.len() - 1) =~= infer_expressions(p, v, g));
        lemma_infer_expressions_occurrences(p, v, g, x);
        lemma_infer_occurrences(s[s.len() - 1], v, g, x);
    }
}

proof fn lemma_infer_algebraic_alternatives_occurrences(
    s: Seq<AlgebraicAlternativeV>,
    v: Environment,
    g: Seq<Seq<char>>,
    x: Seq<Seq<char>>,
)
    ensures
        algebraic_alternatives_occurrences(infer_algebraic_alternatives(s, v, g), x)
            == algebraic_alternatives_occurrences(s, x),
    decreases s,
{
    if s.len() > 0 {
        let p = s.subrange(0, s.len() - 1);
        let a = s[s.len() - 1];
        lemma_infer_algebraic_alternatives_shape(p, v, g);
        lemma_infer_algebraic_alternatives_shape(s, v, g);
        let t = infer_algebraic_alternatives(s, v, g);
        assert(t.subrange(0, t.len() - 1) =~= infer_algebraic_alternatives(p, v, g));
        lemma_infer_algebraic_alternatives_occurrences(p, v, g, x);
        lemma_infer_occurrences(a.expression, alternative_variables(a, v), g, x + a.element_names);
    }
}

proof fn lemma_infer_primitive_alternatives_occurrences(
    s: Seq<PrimitiveAlternativeV>,
    v: Environment,
    g: Seq<Seq<char>>,
    x: Seq<Seq<char>>,
)
    ensures
        primitive_alternatives_occurrences(infer_primitive_alternatives(s, v, g), x)
            == primitive_alternatives_occurrences(s, x),
    decreases s,
{
    if s.len() > 0 {
        let p = s.subrange(0, s.len() - 1);
        lemma_infer_primitive_alternatives_shape(p, v, g);
        lemma_infer_primitive_alternatives_shape(s, v, g);
        let t = infer_primitive_alternatives(s, v, g);
        assert(t.subrange(0, t.len() - 1) =~= infer_primitive_alternatives(p, v, g));
        lemma_infer_primitive_alternatives_occurrences(p, v, g, x);
        lemma_infer_occurrences(s[s.len() - 1].expression, v, g, x);
    }
}

/// Inference leaves the free variables of a function definition as they are.
pub proof fn lemma_infer_definition_occurrences(
    d: FunctionDefinitionV,
    v: Environment,
    g: Seq<Seq<char>>,
    x: Seq<Seq<char>>,
)
    ensures
        definition_occurrences(infer_definition(d, v, g), x) == definition_occurrences(d, x),
    decreases d,
{
    lemma_infer_occurrences(
        d.body,
        v + crate::analysis::type_check::argument_bindings(d.arguments),
        g,
        x.push(d.name) + crate::free_variables::argument_names(d.arguments),
    );
}

proof fn lemma_infer_definitions_occurrences(
    s: Seq<FunctionDefinitionV>,
    v: Environment,
    g: Seq<Seq<char>>,
    x: Seq<Seq<char>>,
)
    ensures
        definitions_occurrences(infer_definitions(s, v, g), x) == definitions_occurrences(s, x),
    decreases s,
{
    if s.len() > 0 {
        let p = s.subrange(0, s.len() - 1);
        lemma_infer_definitions_shape(p, v, g);
        lemma_infer_definitions_shape(s, v, g);
        let t = infer_definitions(s, v, g);
        assert(t.subrange(0, t.len() - 1) =~= infer_definitions(p, v, g));
        lemma_infer_definitions_occurrences(p, v, g, x);
        lemma_infer_definition_occurrences(s[s.len() - 1], v, g, x);
    }
}

/// Inferring the environments of an expression's local functions a second
/// time changes nothing.
pub proof fn infer_is_idempotent(e: ExpressionV, v: Environment, g: Seq<Seq<char>>)
    ensures
        infer(infer(e, v, g), v, g) == infer(e, v, g),
    decreases e,
{
    match e {
        ExpressionV::Bitcast(y, _) => infer_is_idempotent(*y, v, g),
        ExpressionV::AlgebraicCase(argument, alternatives, default) => {
            infer_is_idempotent(*argument, v, g);
            lemma_infer_algebraic_alternatives_idempotent(alternatives, v, g);
            lemma_infer_default_idempotent(default, v, g);
        },
        ExpressionV::PrimitiveCase(argument, alternatives, default) => {
            infer_is_idempotent(*argument, v, g);
            lemma_infer_primitive_alternatives_idempotent(alternatives, v, g);
            lemma_infer_default_idempotent(default, v, g);
        },
        ExpressionV::ConstructorApplication(_, arguments) => {
            lemma_infer_expressions_idempotent(arguments, v, g);
        },
        ExpressionV::FunctionApplication(f, a) => {
            infer_is_idempotent(*f, v, g);
            infer_is_idempotent(*a, v, g);
        },
        ExpressionV::LetRecursive(definitions, y) => {
            let inner = v + let_recursive_bindings(definitions);
            lemma_infer_definitions_shape(definitions, inner, g);
            lemma_infer_definitions_idempotent(definitions, inner, g);
            infer_is_idempotent(*y, inner, g);
        },
        ExpressionV::Let(name, t, bound, y) => {
            infer_is_idempotent(*bound, v, g);
            infer_is_idempotent(*y, v.push((name, t)), g);
        },
        ExpressionV::Primitive(_) => {},
        ExpressionV::PrimitiveOperation(_, lhs, rhs) => {
            infer_is_idempotent(*lhs, v, g);
            infer_is_idempotent(*rhs, v, g);
        },
        ExpressionV::Variable(_) => {},
    }
}

proof fn lemma_infer_default_idempotent(
    default: Option<Box<ExpressionV>>,
    v: Environment,
    g: Seq<Seq<char>>,
)
    ensures
        infer_default(infer_default(default, v, g), v, g) == infer_default(default, v, g),
    decreases default,
{
    match default {
        Some(d) => infer_is_idempotent(*d, v, g),
        None => {},
    }
}

proof fn lemma_infer_expressions_idempotent(s: Seq<ExpressionV>, v: Environment, g: Seq<Seq<char>>)
    ensures
        infer_expressions(infer_expressions(s, v, g), v, g) == infer_expressions(s, v, g),
    decreases s,
{
    let t = infer_expressions(s, v, g);
    lemma_infer_expressions_shape(s, v, g);
    lemma_infer_expressions_shape(t, v, g);
    assert forall|i: int| 0 <= i < s.len() implies #[trigger] infer(t[i], v, g) == t[i] by {
        infer_is_idempotent(s[i], v, g);
    }
    assert(infer_expressions(t, v, g) =~= t);
}

proof fn lemma_infer_algebraic_alternatives_idempotent(
    s: Seq<AlgebraicAlternativeV>,
    v: Environment,
    g: Seq<Seq<char>>,
)
    ensures
        infer_algebraic_alternatives(infer_algebraic_alternatives(s, v, g), v, g)
            == infer_algebraic_alternatives(s, v, g),
    decreases s,
{
    let t = infer_algebraic_alternatives(s, v, g);
    lemma_infer_algebraic_alternatives_shape(s, v, g);
    lemma_infer_algebraic_alternatives_shape(t, v, g);
    assert forall|i: int| 0 <= i < s.len() implies #[trigger] infer_algebraic_alternative(
        t[i],
        v,
        g,
    ) == t[i] by {
        let a = s[i];
        assert(alternative_variables(t[i], v) == alternative_variables(a, v));
        infer_is_idempotent(a.expression, alternative_variables(a, v), g);
    }
    assert(infer_algebraic_alternatives(t, v, g) =~= t);
}

proof fn lemma_infer_primitive_alternatives_idempotent(
    s: Seq<PrimitiveAlternativeV>,
    v: Environment,
    g: Seq<Seq<char>>,
)
    ensures
        infer_primitive_alternatives(infer_primitive_alternatives(s, v, g), v, g)
            == infer_primitive_alternatives(s, v, g),
    decreases s,
{
    let t = infer_primitive_alternatives(s, v, g);
    lemma_infer_primitive_alternatives_shape(s, v, g);
    lemma_infer_primitive_alternatives_shape(t, v, g);
    assert forall|i: int| 0 <= i < s.len() implies #[trigger] infer(t[i].expression, v, g)
        == t[i].expression by {
        infer_is_idempotent(s[i].expression, v, g);
    }
    assert(infer_primitive_alternatives(t, v, g) =~= t);
}

/// Inferring the environment of a function a second time changes nothing.
pub proof fn infer_definition_is_idempotent(d: FunctionDefinitionV, v: Environment, g: Seq<Seq<char>>)
    ensures
        infer_definition(infer_definition(d, v, g), v, g) == infer_definition(d, v, g),
    decreases d,
{
    lemma_infer_definition_occurrences(d, v, g, g);
    infer_is_idempotent(d.body, v + crate::analysis::type_check::argument_bindings(d.arguments), g);
}

proof fn lemma_infer_definitions_idempotent(
    s: Seq<FunctionDefinitionV>,
    v: Environment,
    g: Seq<Seq<char>>,
)
    ensures
        infer_definitions(infer_definitions(s, v, g), v, g) == infer_definitions(s, v, g),
    decreases s,
{
    let t = infer_definitions(s, v, g);
    lemma_infer_definitions_shape(s, v, g);
    lemma_infer_definitions_shape(t, v, g);
    assert forall|i: int| 0 <= i < s.len() implies #[trigger] infer_definition(t[i], v, g)
        == t[i] by {
        infer_definition_is_idempotent(s[i], v, g);
    }
    assert(infer_definitions(t, v, g) =~= t);
}

/// The environment inferred for a function holds each of its free variables
/// that is not global exactly once, and nothing else, each typed as the
/// variables in scope type it.
pub proof fn inferred_environment_is_free_variables(
    d: FunctionDefinitionV,
    v: Environment,
    g: Seq<Seq<char>>,
)
    requires
        crate::environment::definition_inferable(d, v, g),
    ensures
        argument_names(inferred_environment(d, v, g)).no_duplicates(),
        forall|n: Seq<char>|
            #[trigger] argument_names(inferred_environment(d, v, g)).contains(n)
                <==> definition_occurrences(d, g).contains(n),
        forall|i: int|
            0 <= i < inferred_environment(d, v, g).len() ==> Some(
                (#[trigger] inferred_environment(d, v, g)[i]).type_,
            ) == lookup(v, inferred_environment(d, v, g)[i].name),
{
    let occ = definition_occurrences(d, g);
    lemma_extend_distinct(Seq::empty(), occ);
    assert(argument_names(inferred_environment(d, v, g)) =~= distinct(occ));
    assert forall|i: int| 0 <= i < inferred_environment(d, v, g).len() implies Some(
        (#[trigger] inferred_environment(d, v, g)[i]).type_,
    ) == lookup(v, inferred_environment(d, v, g)[i].name) by {
        let n = distinct(occ)[i];
        assert(distinct(occ).contains(n));
        assert(occ.contains(n));
    }
}

proof fn lemma_expressions_inferable_iff(s: Seq<ExpressionV>, v: Environment, g: Seq<Seq<char>>)
    ensures
        expressions_inferable(s, v, g) <==> forall|i: int|
            0 <= i < s.len() ==> #[trigger] inferable(s[i], v, g),
    decreases s.len(),
{
    if s.len() > 0 {
        let p = s.subrange(0, s.len() - 1);
        lemma_expressions_inferable_iff(p, v, g);
        if forall|i: int| 0 <= i < s.len() ==> #[trigger] inferable(s[i], v, g) {
            assert forall|i: int| 0 <= i < p.len() implies inferable(p[i], v, g) by {
                assert(p[i] == s[i]);
            }
            assert(inferable(s[s.len() - 1], v, g));
        }
        if expressions_inferable(s, v, g) {
            assert(inferable(s[s.len() - 1], v, g));
            assert forall|i: int| 0 <= i < s.len() implies inferable(s[i], v, g) by {
                if i < p.len() {
                    assert(p[i] == s[i]);
                }
            }
        }
    }
}

/// What an alternative needs for inference.
pub open spec fn alternative_inferable(a: AlgebraicAlternativeV, v: Environment, g: Seq<Seq<char>>) -> bool {
    crate::analysis::type_check::constructor_in_range(a.constructor) && inferable(
        a.expression,
        alternative_variables(a, v),
        g,
    )
}

proof fn lemma_algebraic_alternatives_inferable_iff(
    s: Seq<AlgebraicAlternativeV>,
    v: Environment,
    g: Seq<Seq<char>>,
)
    ensures
        algebraic_alternatives_inferable(s, v, g) <==> forall|i: int|
            0 <= i < s.len() ==> #[trigger] alternative_inferable(s[i], v, g),
    decreases s.len(),
{
    if s.len() > 0 {
        let p = s.subrange(0, s.len() - 1);
        lemma_algebraic_alternatives_inferable_iff(p, v, g);
        if forall|i: int| 0 <= i < s.len() ==> #[trigger] alternative_inferable(s[i], v, g) {
            assert forall|i: int| 0 <= i < p.len() implies alternative_inferable(p[i], v, g) by {
                assert(p[i] == s[i]);
            }
            assert(alternative_inferable(s[s.len() - 1], v, g));
            assert(inferable(
                s[s.len() - 1].expression,
                alternative_variables(s[s.len() - 1], v),
                g,
            ));
        }
        if algebraic_alternatives_inferable(s, v, g) {
            assert(inferable(
                s[s.len() - 1].expression,
                alternative_variables(s[s.len() - 1], v),
                g,
            ));
            assert forall|i: int| 0 <= i < s.len() implies alternative_inferable(s[i], v, g) by {
                if i < p.len() {
                    assert(p[i] == s[i]);
                }
            }
        }
    }
}

proof fn lemma_primitive_alternatives_inferable_iff(
    s: Seq<PrimitiveAlternativeV>,
    v: Environment,
    g: Seq<Seq<char>>,
)
    ensures
        primitive_alternatives_inferable(s, v, g) <==> forall|i: int|
            0 <= i < s.len() ==> #[trigger] inferable(s[i].expression, v, g),
    decreases s.len(),
{
    if s.len() > 0 {
        let p = s.subrange(0, s.len() - 1);
        lemma_primitive_alternatives_inferable_iff(p, v, g);
        if forall|i: int| 0 <= i < s.len() ==> #[trigger] inferable(s[i].expression, v, g) {
            assert forall|i: int| 0 <= i < p.len() implies inferable(p[i].expression, v, g) by {
                assert(p[i] == s[i]);
            }
            assert(inferable(s[s.len() - 1].expression, v, g));
        }
        if primitive_alternatives_inferable(s, v, g) {
            assert(inferable(s[s.len() - 1].expression, v, g));
            assert forall|i: int| 0 <= i < s.len() implies inferable(s[i].expression, v, g) by {
                if i < p.len() {
                    assert(p[i] == s[i]);
                }
            }
        }
    }
}

proof fn lemma_definitions_inferable_iff(s: Seq<FunctionDefinitionV>, v: Environment, g: Seq<Seq<char>>)
    ensures
        definitions_inferable(s, v, g) <==> forall|i: int|
            0 <= i < s.len() ==> #[trigger] definition_inferable(s[i], v, g),
    decreases s.len(),
{
    if s.len() > 0 {
        let p = s.subrange(0, s.len() - 1);
        lemma_definitions_inferable_iff(p, v, g);
        if forall|i: int| 0 <= i < s.len() ==> #[trigger] definition_inferable(s[i], v, g) {
            assert forall|i: int| 0 <= i < p.len() implies definition_inferable(p[i], v, g) by {
                assert(p[i] == s[i]);
            }
            assert(definition_inferable(s[s.len() - 1], v, g));
        }
        if definitions_inferable(s, v, g) {
            assert(definition_inferable(s[s.len() - 1], v, g));
            assert forall|i: int| 0 <= i < s.len() implies definition_inferable(s[i], v, g) by {
                if i < p.len() {
                    assert(p[i] == s[i]);
                }
            }
        }
    }
}

/// What inference gives can be inferred again: its result meets inference's
/// own precondition.
pub proof fn inference_keeps_inferable(e: ExpressionV, v: Environment, g: Seq<Seq<char>>)
    requires
        inferable(e, v, g),
    ensures
        inferable(infer(e, v, g), v, g),
    decreases e,
{
    match e {
        ExpressionV::Bitcast(x, _) => inference_keeps_inferable(*x, v, g),
        ExpressionV::AlgebraicCase(argument, alternatives, default) => {
            inference_keeps_inferable(*argument, v, g);
            lemma_algebraic_alternatives_keep_inferable(alternatives, v, g);
            lemma_default_keeps_inferable(default, v, g);
        },
        ExpressionV::PrimitiveCase(argument, alternatives, default) => {
            inference_keeps_inferable(*argument, v, g);
            lemma_primitive_alternatives_keep_inferable(alternatives, v, g);
            lemma_default_keeps_inferable(default, v, g);
        },
        ExpressionV::ConstructorApplication(_, arguments) => {
            lemma_expressions_keep_inferable(arguments, v, g);
        },
        ExpressionV::FunctionApplication(f, a) => {
            inference_keeps_inferable(*f, v, g);
            inference_keeps_inferable(*a, v, g);
        },
        ExpressionV::LetRecursive(definitions, x) => {
            let inner = v + let_recursive_bindings(definitions);
            lemma_infer_definitions_shape(definitions, inner, g);
            lemma_definitions_keep_inferable(definitions, inner, g);
            inference_keeps_inferable(*x, inner, g);
        },
        ExpressionV::Let(name, t, bound, x) => {
            inference_keeps_inferable(*bound, v, g);
            inference_keeps_inferable(*x, v.push((name, t)), g);
        },
        ExpressionV::Primitive(_) => {},
        ExpressionV::PrimitiveOperation(_, lhs, rhs) => {
            inference_keeps_inferable(*lhs, v, g);
            inference_keeps_inferable(*rhs, v, g);
        },
        ExpressionV::Variable(_) => {},
    }
}

proof fn lemma_default_keeps_inferable(
    default: Option<Box<ExpressionV>>,
    v: Environment,
    g: Seq<Seq<char>>,
)
    requires
        default_inferable(default, v, g),
    ensures
        default_inferable(infer_default(default, v, g), v, g),
    decreases default,
{
    match default {
        Some(d) => inference_keeps_inferable(*d, v, g),
        None => {},
    }
}

proof fn lemma_expressions_keep_inferable(s: Seq<ExpressionV>, v: Environment, g: Seq<Seq<char>>)
    requires
        expressions_inferable(s, v, g),
    ensures
        expressions_inferable(infer_expressions(s, v, g), v, g),
    decreases s,
{
    let t = infer_expressions(s, v, g);
    lemma_infer_expressions_shape(s, v, g);
    lemma_expressions_inferable_iff(s, v, g);
    lemma_expressions_inferable_iff(t, v, g);
    assert forall|i: int| 0 <= i < t.len() implies #[trigger] inferable(t[i], v, g) by {
        assert(inferable(s[i], v, g));
        inference_keeps_inferable(s[i], v, g);
    }
}

proof fn lemma_algebraic_alternatives_keep_inferable(
    s: Seq<AlgebraicAlternativeV>,
    v: Environment,
    g: Seq<Seq<char>>,
)
    requires
        algebraic_alternatives_inferable(s, v, g),
    ensures
        algebraic_alternatives_inferable(infer_algebraic_alternatives(s, v, g), v, g),
    decreases s,
{
    let t = infer_algebraic_alternatives(s, v, g);
    lemma_infer_algebraic_alternatives_shape(s, v, g);
    lemma_algebraic_alternatives_inferable_iff(s, v, g);
    lemma_algebraic_alternatives_inferable_iff(t, v, g);
    assert forall|i: int| 0 <= i < t.len() implies #[trigger] alternative_inferable(t[i], v, g) by {
        let a = s[i];
        assert(alternative_inferable(a, v, g));
        assert(alternative_variables(t[i], v) == alternative_variables(a, v));
        inference_keeps_inferable(a.expression, alternative_variables(a, v), g);
    }
}

proof fn lemma_primitive_alternatives_keep_inferable(
    s: Seq<PrimitiveAlternativeV>,
    v: Environment,
    g: Seq<Seq<char>>,
)
    requires
        primitive_alternatives_inferable(s, v, g),
    ensures
        primitive_alternatives_inferable(infer_primitive_alternatives(s, v, g), v, g),
    decreases s,
{
    let t = infer_primitive_alternatives(s, v, g);
    lemma_infer_primitive_alternatives_shape(s, v, g);
    lemma_primitive_alternatives_inferable_iff(s, v, g);
    lemma_primitive_alternatives_inferable_iff(t, v, g);
    assert forall|i: int| 0 <= i < t.len() implies #[trigger] inferable(t[i].expression, v, g) by {
        assert(inferable(s[i].expression, v, g));
        inference_keeps_inferable(s[i].expression, v, g);
    }
}

/// A function whose environment was inferred can have it inferred again.
pub proof fn inference_keeps_definition_inferable(
    d: FunctionDefinitionV,
    v: Environment,
    g: Seq<Seq<char>>,
)
    requires
        definition_inferable(d, v, g),
    ensures
        definition_inferable(infer_definition(d, v, g), v, g),
    decreases d,
{
    lemma_infer_definition_occurrences(d, v, g, g);
    inference_keeps_inferable(
        d.body,
        v + crate::analysis::type_check::argument_bindings(d.arguments),
        g,
    );
}

proof fn lemma_definitions_keep_inferable(
    s: Seq<FunctionDefinitionV>,
    v: Environment,
    g: Seq<Seq<char>>,
)
    requires
        definitions_inferable(s, v, g),
    ensures
        definitions_inferable(infer_definitions(s, v, g), v, g),
    decreases s,
{
    let t = infer_definitions(s, v, g);
    lemma_infer_definitions_shape(s, v, g);
    lemma_definitions_inferable_iff(s, v, g);
    lemma_definitions_inferable_iff(t, v, g);
    assert forall|i: int| 0 <= i < t.len() implies #[trigger] definition_inferable(t[i], v, g) by {
        assert(definition_inferable(s[i], v, g));
        inference_keeps_definition_inferable(s[i], v, g);
    }
}

/// Inference types a name bound by a `let rec` with the function type of its
/// definition: its argument types curried onto its result type.
pub proof fn let_recursive_names_have_function_types(definitions: Seq<FunctionDefinitionV>)
    ensures
        let_recursive_bindings(definitions).len() == definitions.len(),
        forall|i: int|
            0 <= i < definitions.len() ==> #[trigger] let_recursive_bindings(definitions)[i] == (
            definitions[i].name,
            crate::types::function_type(
                definitions[i].arguments.map_values(|a: ArgumentV| a.type_),
                definitions[i].result_type,
            ),
        ),
{
}

/// The type checker checks the definitions and the body of a `let rec` under
/// the very bindings of its names that inference uses.
pub proof fn let_recursive_scope_agrees_with_checker(
    definitions: Seq<FunctionDefinitionV>,
    body: ExpressionV,
    v: Environment,
)
    ensures
        crate::analysis::type_check::check_expression(
            ExpressionV::LetRecursive(definitions, Box::new(body)),
            v,
        ) == match crate::analysis::type_check::check_function_definitions(
            definitions,
            v + let_recursive_bindings(definitions),
        ) {
            Err(f) => Err(f),
            Ok(_) => crate::analysis::type_check::check_expression(
                body,
                v + let_recursive_bindings(definitions),
            ),
        },
{
    assert(definitions.map_values(
        |d: FunctionDefinitionV| (d.name, crate::ir::definition_type(d)),
    ) =~= let_recursive_bindings(definitions));
}

} // verus!
