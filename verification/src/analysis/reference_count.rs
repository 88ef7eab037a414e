//! The reference counting pass: rebuilds a module's definitions, local
//! function definitions losing the environments that were inferred for them.
//! The pass handles no variable yet: it is defined on modules whose
//! expressions mention none.
use crate::ir::{
    clone_strings, lemma_view_algebraic_alternatives, lemma_view_expressions,
    lemma_view_function_definitions, lemma_view_primitive_alternatives, view_algebraic_alternative,
    view_algebraic_alternatives, view_default, view_definition, view_expressions,
    view_function_definitions, view_primitive_alternative, view_primitive_alternatives,
    AlgebraicAlternative, AlgebraicAlternativeV, AlgebraicCase, Bitcast, Case,
    ConstructorApplication, Definition, DefinitionV, Expression, ExpressionV, FunctionApplication,
    FunctionDefinition, FunctionDefinitionV, Let, LetRecursive, Module, ModuleV,
    PrimitiveAlternative, PrimitiveAlternativeV, PrimitiveCase, PrimitiveOperation,
    ValueDefinition, ValueDefinitionV,
};
use crate::module::{clone_declarations, clone_foreign_declarations};
use vstd::prelude::*;

verus! {

broadcast use vstd::std_specs::vec::group_vec_axioms;

/// The expression mentions no variable.
pub open spec fn variable_free(e: ExpressionV) -> bool
    decreases e,
{
    match e {
        ExpressionV::Bitcast(x, _) => variable_free(*x),
        ExpressionV::AlgebraicCase(argument, alternatives, default) => variable_free(*argument)
            && algebraic_alternatives_variable_free(alternatives) && default_variable_free(default),
        ExpressionV::PrimitiveCase(argument, alternatives, default) => variable_free(*argument)
            && primitive_alternatives_variable_free(alternatives) && default_variable_free(default),
        ExpressionV::ConstructorApplication(_, arguments) => expressions_variable_free(arguments),
        ExpressionV::FunctionApplication(f, a) => variable_free(*f) && variable_free(*a),
        ExpressionV::LetRecursive(definitions, x) => definitions_variable_free(definitions)
            && variable_free(*x),
        ExpressionV::Let(_, _, bound, x) => variable_free(*bound) && variable_free(*x),
        ExpressionV::Primitive(_) => true,
        ExpressionV::PrimitiveOperation(_, lhs, rhs) => variable_free(*lhs) && variable_free(*rhs),
        ExpressionV::Variable(_) => false,
    }
}

pub open spec fn default_variable_free(default: Option<Box<ExpressionV>>) -> bool
    decreases default,
{
    match default {
        Some(d) => variable_free(*d),
        None => true,
    }
}

pub open spec fn expressions_variable_free(s: Seq<ExpressionV>) -> bool
    decreases s,
{
    s.len() == 0 || (expressions_variable_free(s.subrange(0, s.len() - 1)) && variable_free(
        s[s.len() - 1],
    ))
}

pub open spec fn algebraic_alternatives_variable_free(s: Seq<AlgebraicAlternativeV>) -> bool
    decreases s,
{
    s.len() == 0 || (algebraic_alternatives_variable_free(s.subrange(0, s.len() - 1))
        && variable_free(s[s.len() - 1].expression))
}

pub open spec fn primitive_alternatives_variable_free(s: Seq<PrimitiveAlternativeV>) -> bool
    decreases s,
{
    s.len() == 0 || (primitive_alternatives_variable_free(s.subrange(0, s.len() - 1))
        && variable_free(s[s.len() - 1].expression))
}

pub open spec fn definitions_variable_free(s: Seq<FunctionDefinitionV>) -> bool
    decreases s,
{
    s.len() == 0 || (definitions_variable_free(s.subrange(0, s.len() - 1)) && variable_free(
        s[s.len() - 1].body,
    ))
}

/// No definition of the module mentions a variable.
pub open spec fn module_variable_free(m: ModuleV) -> bool {
    forall|i: int|
        0 <= i < m.definitions.len() ==> variable_free(
            match #[trigger] m.definitions[i] {
                DefinitionV::Function(f) => f.body,
                DefinitionV::Value(v) => v.body,
            },
        )
}

/// The expression with the environments of its local function definitions
/// left empty.
pub open spec fn without_environments(e: ExpressionV) -> ExpressionV
    decreases e,
{
    match e {
        ExpressionV::Bitcast(x, t) => ExpressionV::Bitcast(Box::new(without_environments(*x)), t),
        ExpressionV::AlgebraicCase(argument, alternatives, default) => ExpressionV::AlgebraicCase(
            Box::new(without_environments(*argument)),
            algebraic_alternatives_without_environments(alternatives),
            default_without_environments(default),
        ),
        ExpressionV::PrimitiveCase(argument, alternatives, default) => ExpressionV::PrimitiveCase(
            Box::new(without_environments(*argument)),
            primitive_alternatives_without_environments(alternatives),
            default_without_environments(default),
        ),
        ExpressionV::ConstructorApplication(c, arguments) => ExpressionV::ConstructorApplication(
            c,
            expressions_without_environments(arguments),
        ),
        ExpressionV::FunctionApplication(f, a) => ExpressionV::FunctionApplication(
            Box::new(without_environments(*f)),
            Box::new(without_environments(*a)),
        ),
        ExpressionV::LetRecursive(definitions, x) => ExpressionV::LetRecursive(
            definitions_without_environments(definitions),
            Box::new(without_environments(*x)),
        ),
        ExpressionV::Let(name, t, bound, x) => ExpressionV::Let(
            name,
            t,
            Box::new(without_environments(*bound)),
            Box::new(without_environments(*x)),
        ),
        ExpressionV::Primitive(p) => ExpressionV::Primitive(p),
        ExpressionV::PrimitiveOperation(o, lhs, rhs) => ExpressionV::PrimitiveOperation(
            o,
            Box::new(without_environments(*lhs)),
            Box::new(without_environments(*rhs)),
        ),
        ExpressionV::Variable(name) => ExpressionV::Variable(name),
    }
}

pub open spec fn default_without_environments(default: Option<Box<ExpressionV>>) -> Option<
    Box<ExpressionV>,
>
    decreases default,
{
    match default {
        Some(d) => Some(Box::new(without_environments(*d))),
        None => None,
    }
}

pub open spec fn expressions_without_environments(s: Seq<ExpressionV>) -> Seq<ExpressionV>
    decreases s,
{
    if s.len() == 0 {
        Seq::empty()
    } else {
        expressions_without_environments(s.subrange(0, s.len() - 1)).push(
            without_environments(s[s.len() - 1]),
        )
    }
}

pub open spec fn algebraic_alternatives_without_environments(s: Seq<AlgebraicAlternativeV>) -> Seq<
    AlgebraicAlternativeV,
>
    decreases s,
{
    if s.len() == 0 {
        Seq::empty()
    } else {
        algebraic_alternatives_without_environments(s.subrange(0, s.len() - 1)).push(
            AlgebraicAlternativeV {
                constructor: s[s.len() - 1].constructor,
                element_names: s[s.len() - 1].element_names,
                expression: without_environments(s[s.len() - 1].expression),
            },
        )
    }
}

pub open spec fn primitive_alternatives_without_environments(s: Seq<PrimitiveAlternativeV>) -> Seq<
    PrimitiveAlternativeV,
>
    decreases s,
{
    if s.len() == 0 {
        Seq::empty()
    } else {
        primitive_alternatives_without_environments(s.subrange(0, s.len() - 1)).push(
            PrimitiveAlternativeV {
                primitive: s[s.len() - 1].primitive,
                expression: without_environments(s[s.len() - 1].expression),
            },
        )
    }
}

/// A function definition with an empty environment and its body converted.
pub open spec fn definition_without_environments(d: FunctionDefinitionV) -> FunctionDefinitionV {
    FunctionDefinitionV {
        name: d.name,
        environment: Seq::empty(),
        arguments: d.arguments,
        body: without_environments(d.body),
        result_type: d.result_type,
    }
}

pub open spec fn definitions_without_environments(s: Seq<FunctionDefinitionV>) -> Seq<
    FunctionDefinitionV,
>
    decreases s,
{
    if s.len() == 0 {
        Seq::empty()
    } else {
        definitions_without_environments(s.subrange(0, s.len() - 1)).push(
            FunctionDefinitionV {
                name: s[s.len() - 1].name,
                environment: Seq::empty(),
                arguments: s[s.len() - 1].arguments,
                body: without_environments(s[s.len() - 1].body),
                result_type: s[s.len() - 1].result_type,
            },
        )
    }
}

/// What the pass makes of a module: declarations stay; every function
/// definition loses its environment, and every body is converted.
pub open spec fn reference_counted(m: ModuleV) -> ModuleV {
    ModuleV {
        foreign_declarations: m.foreign_declarations,
        declarations: m.declarations,
        definitions: m.definitions.map_values(
            |d: DefinitionV|
                match d {
                    DefinitionV::Function(f) => DefinitionV::Function(
                        definition_without_environments(f),
                    ),
                    DefinitionV::Value(v) => DefinitionV::Value(
                        ValueDefinitionV {
                            name: v.name,
                            body: without_environments(v.body),
                            type_: v.type_,
                        },
                    ),
                },
        ),
    }
}

/// The expression defines no local function.
pub open spec fn without_local_functions(e: ExpressionV) -> bool
    decreases e,
{
    match e {
        ExpressionV::Bitcast(x, _) => without_local_functions(*x),
        ExpressionV::AlgebraicCase(argument, alternatives, default) => without_local_functions(
            *argument,
        ) && algebraic_alternatives_without_local_functions(alternatives)
            && default_without_local_functions(default),
        ExpressionV::PrimitiveCase(argument, alternatives, default) => without_local_functions(
            *argument,
        ) && primitive_alternatives_without_local_functions(alternatives)
            && default_without_local_functions(default),
        ExpressionV::ConstructorApplication(_, arguments) => expressions_without_local_functions(
            arguments,
        ),
        ExpressionV::FunctionApplication(f, a) => without_local_functions(*f)
            && without_local_functions(*a),
        ExpressionV::LetRecursive(_, _) => false,
        ExpressionV::Let(_, _, bound, x) => without_local_functions(*bound)
            && without_local_functions(*x),
        ExpressionV::Primitive(_) => true,
        ExpressionV::PrimitiveOperation(_, lhs, rhs) => without_local_functions(*lhs)
            && without_local_functions(*rhs),
        ExpressionV::Variable(_) => true,
    }
}

pub open spec fn default_without_local_functions(default: Option<Box<ExpressionV>>) -> bool
    decreases default,
{
    match default {
        Some(d) => without_local_functions(*d),
        None => true,
    }
}

pub open spec fn expressions_without_local_functions(s: Seq<ExpressionV>) -> bool
    decreases s,
{
    s.len() == 0 || (expressions_without_local_functions(s.subrange(0, s.len() - 1))
        && without_local_functions(s[s.len() - 1]))
}

pub open spec fn algebraic_alternatives_without_local_functions(s: Seq<AlgebraicAlternativeV>) -> bool
    decreases s,
{
    s.len() == 0 || (algebraic_alternatives_without_local_functions(s.subrange(0, s.len() - 1))
        && without_local_functions(s[s.len() - 1].expression))
}

pub open spec fn primitive_alternatives_without_local_functions(s: Seq<PrimitiveAlternativeV>) -> bool
    decreases s,
{
    s.len() == 0 || (primitive_alternatives_without_local_functions(s.subrange(0, s.len() - 1))
        && without_local_functions(s[s.len() - 1].expression))
}

/// The pass leaves an expression that defines no local function exactly as
/// it is.
pub proof fn without_environments_keeps_plain_expressions(e: ExpressionV)
    requires
        without_local_functions(e),
    ensures
        without_environments(e) == e,
    decreases e,
{
    match e {
        ExpressionV::Bitcast(x, _) => without_environments_keeps_plain_expressions(*x),
        ExpressionV::AlgebraicCase(argument, alternatives, default) => {
            without_environments_keeps_plain_expressions(*argument);
            lemma_algebraic_alternatives_keep_plain(alternatives);
            lemma_default_keeps_plain(default);
        },
        ExpressionV::PrimitiveCase(argument, alternatives, default) => {
            without_environments_keeps_plain_expressions(*argument);
            lemma_primitive_alternatives_keep_plain(alternatives);
            lemma_default_keeps_plain(default);
        },
        ExpressionV::ConstructorApplication(_, arguments) => {
            lemma_expressions_keep_plain(arguments);
        },
        ExpressionV::FunctionApplication(f, a) => {
            without_environments_keeps_plain_expressions(*f);
            without_environments_keeps_plain_expressions(*a);
        },
        ExpressionV::LetRecursive(_, _) => {},
        ExpressionV::Let(_, _, bound, x) => {
            without_environments_keeps_plain_expressions(*bound);
            without_environments_keeps_plain_expressions(*x);
        },
        ExpressionV::Primitive(_) => {},
        ExpressionV::PrimitiveOperation(_, lhs, rhs) => {
            without_environments_keeps_plain_expressions(*lhs);
            without_environments_keeps_plain_expressions(*rhs);
        },
        ExpressionV::Variable(_) => {},
    }
}

proof fn lemma_default_keeps_plain(default: Option<Box<ExpressionV>>)
    requires
        default_without_local_functions(default),
    ensures
        default_without_environments(default) == default,
    decreases default,
{
    match default {
        Some(d) => without_environments_keeps_plain_expressions(*d),
        None => {},
    }
}

proof fn lemma_expressions_keep_plain(s: Seq<ExpressionV>)
    requires
        expressions_without_local_functions(s),
    ensures
        expressions_without_environments(s) == s,
    decreases s,
{
    if s.len() > 0 {
        let p = s.subrange(0, s.len() - 1);
        assert(without_local_functions(s[s.len() - 1]));
        lemma_expressions_keep_plain(p);
        without_environments_keeps_plain_expressions(s[s.len() - 1]);
        assert(p.push(s[s.len() - 1]) =~= s);
    }
}

proof fn lemma_algebraic_alternatives_keep_plain(s: Seq<AlgebraicAlternativeV>)
    requires
        algebraic_alternatives_without_local_functions(s),
    ensures
        algebraic_alternatives_without_environments(s) == s,
    decreases s,
{
    if s.len() > 0 {
        let p = s.subrange(0, s.len() - 1);
        let a = s[s.len() - 1];
        assert(without_local_functions(a.expression));
        lemma_algebraic_alternatives_keep_plain(p);
        without_environments_keeps_plain_expressions(a.expression);
        assert(p.push(a) =~= s);
    }
}

proof fn lemma_primitive_alternatives_keep_plain(s: Seq<PrimitiveAlternativeV>)
    requires
        primitive_alternatives_without_local_functions(s),
    ensures
        primitive_alternatives_without_environments(s) == s,
    decreases s,
{
    if s.len() > 0 {
        let p = s.subrange(0, s.len() - 1);
        let a = s[s.len() - 1];
        assert(without_local_functions(a.expression));
        lemma_primitive_alternatives_keep_plain(p);
        without_environments_keeps_plain_expressions(a.expression);
        assert(p.push(a) =~= s);
    }
}

proof fn lemma_expressions_variable_free(s: Seq<ExpressionV>)
    ensures
        expressions_variable_free(s) <==> forall|i: int|
            0 <= i < s.len() ==> #[trigger] variable_free(s[i]),
    decreases s.len(),
{
    if s.len() > 0 {
        let p = s.subrange(0, s.len() - 1);
        lemma_expressions_variable_free(p);
        if forall|i: int| 0 <= i < s.len() ==> #[trigger] variable_free(s[i]) {
            assert forall|i: int| 0 <= i < p.len() implies variable_free(p[i]) by {
                assert(p[i] == s[i]);
            }
            assert(variable_free(s[s.len() - 1]));
        }
        if expressions_variable_free(s) {
            assert(variable_free(s[s.len() - 1]));
            assert forall|i: int| 0 <= i < s.len() implies variable_free(s[i]) by {
                if i < p.len() {
                    assert(p[i] == s[i]);
                }
            }
        }
    }
}

proof fn lemma_algebraic_alternatives_variable_free(s: Seq<AlgebraicAlternativeV>)
    ensures
        algebraic_alternatives_variable_free(s) <==> forall|i: int|
            0 <= i < s.len() ==> #[trigger] variable_free(s[i].expression),
    decreases s.len(),
{
    if s.len() > 0 {
        let p = s.subrange(0, s.len() - 1);
        lemma_algebraic_alternatives_variable_free(p);
        if forall|i: int| 0 <= i < s.len() ==> #[trigger] variable_free(s[i].expression) {
            assert forall|i: int| 0 <= i < p.len() implies variable_free(p[i].expression) by {
                assert(p[i] == s[i]);
            }
            assert(variable_free(s[s.len() - 1].expression));
            assert(variable_free(s[s.len() - 1].expression));
        }
        if algebraic_alternatives_variable_free(s) {
            assert(variable_free(s[s.len() - 1].expression));
            assert forall|i: int| 0 <= i < s.len() implies variable_free(s[i].expression) by {
                if i < p.len() {
                    assert(p[i] == s[i]);
                }
            }
        }
    }
}

proof fn lemma_primitive_alternatives_variable_free(s: Seq<PrimitiveAlternativeV>)
    ensures
        primitive_alternatives_variable_free(s) <==> forall|i: int|
            0 <= i < s.len() ==> #[trigger] variable_free(s[i].expression),
    decreases s.len(),
{
    if s.len() > 0 {
        let p = s.subrange(0, s.len() - 1);
        lemma_primitive_alternatives_variable_free(p);
        if forall|i: int| 0 <= i < s.len() ==> #[trigger] variable_free(s[i].expression) {
            assert forall|i: int| 0 <= i < p.len() implies variable_free(p[i].expression) by {
                assert(p[i] == s[i]);
            }
            assert(variable_free(s[s.len() - 1].expression));
            assert(variable_free(s[s.len() - 1].expression));
        }
        if primitive_alternatives_variable_free(s) {
            assert(variable_free(s[s.len() - 1].expression));
            assert forall|i: int| 0 <= i < s.len() implies variable_free(s[i].expression) by {
                if i < p.len() {
                    assert(p[i] == s[i]);
                }
            }
        }
    }
}

proof fn lemma_definitions_variable_free(s: Seq<FunctionDefinitionV>)
    ensures
        definitions_variable_free(s) <==> forall|i: int|
            0 <= i < s.len() ==> #[trigger] variable_free(s[i].body),
    decreases s.len(),
{
    if s.len() > 0 {
        let p = s.subrange(0, s.len() - 1);
        lemma_definitions_variable_free(p);
        if forall|i: int| 0 <= i < s.len() ==> #[trigger] variable_free(s[i].body) {
            assert forall|i: int| 0 <= i < p.len() implies variable_free(p[i].body) by {
                assert(p[i] == s[i]);
            }
            assert(variable_free(s[s.len() - 1].body));
        }
        if definitions_variable_free(s) {
            assert(variable_free(s[s.len() - 1].body));
            assert forall|i: int| 0 <= i < s.len() implies variable_free(s[i].body) by {
                if i < p.len() {
                    assert(p[i] == s[i]);
                }
            }
        }
    }
}

fn convert_expression(e: &Expression) -> (r: Expression)
    requires
        variable_free(e@),
    ensures
        r@ == without_environments(e@),
    decreases e,
{
    match e {
        Expression::Bitcast(b) => Expression::Bitcast(
            Bitcast {
                expression: Box::new(convert_expression(&b.expression)),
                type_: b.type_.clone(),
            },
        ),
        Expression::Case(Case::Algebraic(c)) => Expression::Case(
            Case::Algebraic(
                AlgebraicCase {
                    argument: Box::new(convert_expression(&c.argument)),
                    alternatives: convert_algebraic_alternatives(&c.alternatives),
                    default_alternative: convert_default(&c.default_alternative),
                },
            ),
        ),
        Expression::Case(Case::Primitive(c)) => Expression::Case(
            Case::Primitive(
                PrimitiveCase {
                    argument: Box::new(convert_expression(&c.argument)),
                    alternatives: convert_primitive_alternatives(&c.alternatives),
                    default_alternative: convert_default(&c.default_alternative),
                },
            ),
        ),
        Expression::ConstructorApplication(a) => Expression::ConstructorApplication(
            ConstructorApplication {
                constructor: a.constructor.clone(),
                arguments: convert_expressions(&a.arguments),
            },
        ),
        Expression::FunctionApplication(a) => Expression::FunctionApplication(
            FunctionApplication {
                function: Box::new(convert_expression(&a.function)),
                argument: Box::new(convert_expression(&a.argument)),
            },
        ),
        Expression::LetRecursive(l) => Expression::LetRecursive(
            LetRecursive {
                definitions: convert_definitions(&l.definitions),
                expression: Box::new(convert_expression(&l.expression)),
            },
        ),
        Expression::Let(l) => Expression::Let(
            Let {
                name: l.name.clone(),
                type_: l.type_.clone(),
                bound_expression: Box::new(convert_expression(&l.bound_expression)),
                expression: Box::new(convert_expression(&l.expression)),
            },
        ),
        Expression::Primitive(p) => Expression::Primitive(*p),
        Expression::PrimitiveOperation(o) => Expression::PrimitiveOperation(
            PrimitiveOperation {
                operator: o.operator,
                lhs: Box::new(convert_expression(&o.lhs)),
                rhs: Box::new(convert_expression(&o.rhs)),
            },
        ),
        Expression::Variable(v) => Expression::Variable(v.clone()),
    }
}

fn convert_default(default: &Option<Box<Expression>>) -> (r: Option<Box<Expression>>)
    requires
        default_variable_free(view_default(*default)),
    ensures
        view_default(r) == default_without_environments(view_default(*default)),
    decreases default,
{
    match default {
        Some(d) => Some(Box::new(convert_expression(d))),
        None => None,
    }
}

fn convert_expressions(s: &Vec<Expression>) -> (r: Vec<Expression>)
    requires
        expressions_variable_free(view_expressions(s@)),
    ensures
        view_expressions(r@) == expressions_without_environments(view_expressions(s@)),
    decreases s,
{
    let ghost v = view_expressions(s@);
    proof {
        lemma_view_expressions(s@);
        lemma_expressions_variable_free(v);
    }
    let mut r: Vec<Expression> = Vec::new();
    for i in 0..s.len()
        invariant
            i <= s@.len(),
            r@.len() == i,
            v == view_expressions(s@),
            v.len() == s@.len(),
            forall|j: int| 0 <= j < s@.len() ==> #[trigger] v[j] == s@[j]@,
            forall|j: int| 0 <= j < v.len() ==> #[trigger] variable_free(v[j]),
            view_expressions(r@) == expressions_without_environments(v.subrange(0, i as int)),
    {
        let ghost before = r@;
        assert(variable_free(v[i as int]));
        r.push(convert_expression(&s[i]));
        assert(r@.subrange(0, r@.len() - 1) =~= before);
        assert(v.subrange(0, i + 1).subrange(0, i as int) =~= v.subrange(0, i as int));
    }
    assert(v.subrange(0, s@.len() as int) =~= v);
    r
}

fn convert_algebraic_alternatives(s: &Vec<AlgebraicAlternative>) -> (r: Vec<AlgebraicAlternative>)
    requires
        algebraic_alternatives_variable_free(view_algebraic_alternatives(s@)),
    ensures
        view_algebraic_alternatives(r@) == algebraic_alternatives_without_environments(
            view_algebraic_alternatives(s@),
        ),
    decreases s,
{
    let ghost v = view_algebraic_alternatives(s@);
    proof {
        lemma_view_algebraic_alternatives(s@);
        lemma_algebraic_alternatives_variable_free(v);
    }
    let mut r: Vec<AlgebraicAlternative> = Vec::new();
    for i in 0..s.len()
        invariant
            i <= s@.len(),
            r@.len() == i,
            v == view_algebraic_alternatives(s@),
            v.len() == s@.len(),
            forall|j: int| 0 <= j < s@.len() ==> #[trigger] v[j] == view_algebraic_alternative(s@[j]),
            forall|j: int| 0 <= j < v.len() ==> #[trigger] variable_free(v[j].expression),
            view_algebraic_alternatives(r@) == algebraic_alternatives_without_environments(
                v.subrange(0, i as int),
            ),
    {
        let a = &s[i];
        assert(variable_free(v[i as int].expression));
        let ghost before = r@;
        r.push(
            AlgebraicAlternative {
                constructor: a.constructor.clone(),
                element_names: clone_strings(&a.element_names),
                expression: convert_expression(&a.expression),
            },
        );
        assert(view_algebraic_alternative(r@[i as int]) == (AlgebraicAlternativeV {
            constructor: v[i as int].constructor,
            element_names: v[i as int].element_names,
            expression: without_environments(v[i as int].expression),
        }));
        assert(v.subrange(0, i + 1)[i as int] == v[i as int]);
        assert(r@.subrange(0, r@.len() - 1) =~= before);
        assert(v.subrange(0, i + 1).subrange(0, i as int) =~= v.subrange(0, i as int));
    }
    assert(v.subrange(0, s@.len() as int) =~= v);
    r
}

fn convert_primitive_alternatives(s: &Vec<PrimitiveAlternative>) -> (r: Vec<PrimitiveAlternative>)
    requires
        primitive_alternatives_variable_free(view_primitive_alternatives(s@)),
    ensures
        view_primitive_alternatives(r@) == primitive_alternatives_without_environments(
            view_primitive_alternatives(s@),
        ),
    decreases s,
{
    let ghost v = view_primitive_alternatives(s@);
    proof {
        lemma_view_primitive_alternatives(s@);
        lemma_primitive_alternatives_variable_free(v);
    }
    let mut r: Vec<PrimitiveAlternative> = Vec::new();
    for i in 0..s.len()
        invariant
            i <= s@.len(),
            r@.len() == i,
            v == view_primitive_alternatives(s@),
            v.len() == s@.len(),
            forall|j: int| 0 <= j < s@.len() ==> #[trigger] v[j] == view_primitive_alternative(s@[j]),
            forall|j: int| 0 <= j < v.len() ==> #[trigger] variable_free(v[j].expression),
            view_primitive_alternatives(r@) == primitive_alternatives_without_environments(
                v.subrange(0, i as int),
            ),
    {
        let a = &s[i];
        assert(variable_free(v[i as int].expression));
        let ghost before = r@;
        r.push(
            PrimitiveAlternative { primitive: a.primitive, expression: convert_expression(&a.expression) },
        );
        assert(view_primitive_alternative(r@[i as int]) == (PrimitiveAlternativeV {
            primitive: v[i as int].primitive,
            expression: without_environments(v[i as int].expression),
        }));
        assert(v.subrange(0, i + 1)[i as int] == v[i as int]);
        assert(r@.subrange(0, r@.len() - 1) =~= before);
        assert(v.subrange(0, i + 1).subrange(0, i as int) =~= v.subrange(0, i as int));
    }
    assert(v.subrange(0, s@.len() as int) =~= v);
    r
}

fn convert_definition(d: &FunctionDefinition) -> (r: FunctionDefinition)
    requires
        variable_free(d@.body),
    ensures
        r@ == definition_without_environments(d@),
    decreases d,
{
    let r = FunctionDefinition {
        name: d.name.clone(),
        environment: Vec::new(),
        arguments: crate::ir::clone_arguments(&d.arguments),
        body: convert_expression(&d.body),
        result_type: d.result_type.clone(),
    };
    assert(r@.environment =~= Seq::empty());
    r
}

fn convert_definitions(s: &Vec<FunctionDefinition>) -> (r: Vec<FunctionDefinition>)
    requires
        definitions_variable_free(view_function_definitions(s@)),
    ensures
        view_function_definitions(r@) == definitions_without_environments(
            view_function_definitions(s@),
        ),
    decreases s,
{
    let ghost v = view_function_definitions(s@);
    proof {
        lemma_view_function_definitions(s@);
        lemma_definitions_variable_free(v);
    }
    let mut r: Vec<FunctionDefinition> = Vec::new();
    for i in 0..s.len()
        invariant
            i <= s@.len(),
            r@.len() == i,
            v == view_function_definitions(s@),
            v.len() == s@.len(),
            forall|j: int| 0 <= j < s@.len() ==> #[trigger] v[j] == s@[j]@,
            forall|j: int| 0 <= j < v.len() ==> #[trigger] variable_free(v[j].body),
            view_function_definitions(r@) == definitions_without_environments(
                v.subrange(0, i as int),
            ),
    {
        let ghost before = r@;
        assert(variable_free(v[i as int].body));
        r.push(convert_definition(&s[i]));
        assert(r@[i as int]@ == definition_without_environments(v[i as int]));
        assert(r@.subrange(0, r@.len() - 1) =~= before);
        assert(v.subrange(0, i + 1).subrange(0, i as int) =~= v.subrange(0, i as int));
    }
    assert(v.subrange(0, s@.len() as int) =~= v);
    r
}

/// Rebuilds every definition of the module, function definitions with empty
/// environments; declarations stay as they are.
pub fn reference_count(module: &Module) -> (r: Module)
    requires
        module_variable_free(module@),
    ensures
        r@ == reference_counted(module@),
{
    let ghost target = reference_counted(module@);
    let mut definitions: Vec<Definition> = Vec::new();
    for i in 0..module.definitions.len()
        invariant
            i <= module.definitions@.len(),
            definitions@.len() == i,
            module_variable_free(module@),
            target == reference_counted(module@),
            forall|j: int|
                0 <= j < i ==> #[trigger] view_definition(definitions@[j]) == target.definitions[j],
    {
        assert(module@.definitions[i as int] == view_definition(module.definitions@[i as int]));
        let d = match &module.definitions[i] {
            Definition::FunctionDefinition(f) => Definition::FunctionDefinition(
                convert_definition(f),
            ),
            Definition::ValueDefinition(v) => Definition::ValueDefinition(
                ValueDefinition {
                    name: v.name.clone(),
                    body: convert_expression(&v.body),
                    type_: v.type_.clone(),
                },
            ),
        };
        definitions.push(d);
    }
    let r = Module {
        foreign_declarations: clone_foreign_declarations(&module.foreign_declarations),
        declarations: clone_declarations(&module.declarations),
        definitions,
    };
    assert(r@.definitions =~= target.definitions);
    r
}

/// A module whose definitions define no local function and whose functions
/// capture nothing comes out of the pass exactly as it went in.
pub proof fn reference_count_keeps_plain_modules(m: ModuleV)
    requires
        forall|i: int|
            0 <= i < m.definitions.len() ==> match #[trigger] m.definitions[i] {
                DefinitionV::Function(f) => f.environment.len() == 0 && without_local_functions(
                    f.body,
                ),
                DefinitionV::Value(v) => without_local_functions(v.body),
            },
    ensures
        reference_counted(m) == m,
{
    let r = reference_counted(m);
    assert forall|i: int| 0 <= i < m.definitions.len() implies #[trigger] r.definitions[i]
        == m.definitions[i] by {
        match m.definitions[i] {
            DefinitionV::Function(f) => {
                without_environments_keeps_plain_expressions(f.body);
                assert(f.environment =~= Seq::empty());
            },
            DefinitionV::Value(v) => without_environments_keeps_plain_expressions(v.body),
        }
    }
    assert(r.definitions =~= m.definitions);
}

} // verus!
