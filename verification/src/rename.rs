//! Renaming of free variables.
use crate::free_variables::{argument_names, definition_names};
use crate::ir::{
    clone_arguments, clone_strings, lemma_view_algebraic_alternatives, lemma_view_expressions,
    lemma_view_function_definitions, lemma_view_primitive_alternatives, names,
    view_algebraic_alternative, view_algebraic_alternatives, view_arguments, view_default,
    view_expression, view_expressions, view_function_definitions, view_primitive_alternative,
    view_primitive_alternatives, AlgebraicAlternative, AlgebraicAlternativeV, AlgebraicCase,
    Argument, Bitcast, Case, ConstructorApplication, Expression, ExpressionV, FunctionApplication,
    FunctionDefinition, FunctionDefinitionV, Let, LetRecursive, PrimitiveAlternative,
    PrimitiveAlternativeV, PrimitiveCase, PrimitiveOperation, Variable,
};
use vstd::prelude::*;

verus! {

broadcast use vstd::std_specs::vec::group_vec_axioms;

/// A renaming: pairs of an old name and a new one; a later pair for the same
/// old name overrides an earlier one.
pub type Renaming = Seq<(Seq<char>, Seq<char>)>;

pub open spec fn view_renaming(s: Seq<(String, String)>) -> Renaming {
    s.map_values(|p: (String, String)| (p.0@, p.1@))
}

/// The name that `name` becomes under the renaming.
pub open spec fn renamed(m: Renaming, name: Seq<char>) -> Seq<char>
    decreases m.len(),
{
    if m.len() == 0 {
        name
    } else if m.last().0 == name {
        m.last().1
    } else {
        renamed(m.drop_last(), name)
    }
}

/// The renaming without any pair for `name`.
pub open spec fn without(m: Renaming, name: Seq<char>) -> Renaming
    decreases m.len(),
{
    if m.len() == 0 {
        m
    } else if m.last().0 == name {
        without(m.drop_last(), name)
    } else {
        without(m.drop_last(), name).push(m.last())
    }
}

/// The renaming without any pair for the `removed` names.
pub open spec fn without_all(m: Renaming, removed: Seq<Seq<char>>) -> Renaming
    decreases removed.len(),
{
    if removed.len() == 0 {
        m
    } else {
        without(without_all(m, removed.drop_last()), removed.last())
    }
}

pub open spec fn rename(e: ExpressionV, m: Renaming) -> ExpressionV
    decreases e,
{
    match e {
        ExpressionV::Bitcast(x, t) => ExpressionV::Bitcast(Box::new(rename(*x, m)), t),
        ExpressionV::AlgebraicCase(argument, alternatives, default) => ExpressionV::AlgebraicCase(
            Box::new(rename(*argument, m)),
            rename_algebraic_alternatives(alternatives, m),
            rename_default(default, m),
        ),
        ExpressionV::PrimitiveCase(argument, alternatives, default) => ExpressionV::PrimitiveCase(
            Box::new(rename(*argument, m)),
            rename_primitive_alternatives(alternatives, m),
            rename_default(default, m),
        ),
        ExpressionV::ConstructorApplication(c, arguments) => ExpressionV::ConstructorApplication(
            c,
            rename_expressions(arguments, m),
        ),
        ExpressionV::FunctionApplication(f, a) => ExpressionV::FunctionApplication(
            Box::new(rename(*f, m)),
            Box::new(rename(*a, m)),
        ),
        ExpressionV::LetRecursive(definitions, x) => {
            let inner = without_all(m, definition_names(definitions));
            ExpressionV::LetRecursive(
                rename_definitions(definitions, inner),
                Box::new(rename(*x, inner)),
            )
        },
        ExpressionV::Let(name, t, bound, x) => ExpressionV::Let(
            name,
            t,
            Box::new(rename(*bound, m)),
            Box::new(rename(*x, without(m, name))),
        ),
        ExpressionV::Primitive(p) => ExpressionV::Primitive(p),
        ExpressionV::PrimitiveOperation(o, lhs, rhs) => ExpressionV::PrimitiveOperation(
            o,
            Box::new(rename(*lhs, m)),
            Box::new(rename(*rhs, m)),
        ),
        ExpressionV::Variable(name) => ExpressionV::Variable(renamed(m, name)),
    }
}

pub open spec fn rename_default(default: Option<Box<ExpressionV>>, m: Renaming) -> Option<
    Box<ExpressionV>,
>
    decreases default,
{
    match default {
        Some(d) => Some(Box::new(rename(*d, m))),
        None => None,
    }
}

pub open spec fn rename_expressions(s: Seq<ExpressionV>, m: Renaming) -> Seq<ExpressionV>
    decreases s,
{
    if s.len() == 0 {
        Seq::empty()
    } else {
        rename_expressions(s.subrange(0, s.len() - 1), m).push(rename(s[s.len() - 1], m))
    }
}

pub open spec fn rename_algebraic_alternative(
    a: AlgebraicAlternativeV,
    m: Renaming,
) -> AlgebraicAlternativeV
    decreases a,
{
    AlgebraicAlternativeV {
        constructor: a.constructor,
        element_names: a.element_names,
        expression: rename(a.expression, without_all(m, a.element_names)),
    }
}

pub open spec fn rename_algebraic_alternatives(
    s: Seq<AlgebraicAlternativeV>,
    m: Renaming,
) -> Seq<AlgebraicAlternativeV>
    decreases s,
{
    if s.len() == 0 {
        Seq::empty()
    } else {
        rename_algebraic_alternatives(s.subrange(0, s.len() - 1), m).push(
            rename_algebraic_alternative(s[s.len() - 1], m),
        )
    }
}

pub open spec fn rename_primitive_alternatives(
    s: Seq<PrimitiveAlternativeV>,
    m: Renaming,
) -> Seq<PrimitiveAlternativeV>
    decreases s,
{
    if s.len() == 0 {
        Seq::empty()
    } else {
        rename_primitive_alternatives(s.subrange(0, s.len() - 1), m).push(
            PrimitiveAlternativeV {
                primitive: s[s.len() - 1].primitive,
                expression: rename(s[s.len() - 1].expression, m),
            },
        )
    }
}

/// Renames the free variables of a function's body; its own name and its
/// arguments shadow the renaming, and its environment stays as it is.
pub open spec fn rename_definition(d: FunctionDefinitionV, m: Renaming) -> FunctionDefinitionV
    decreases d,
{
    FunctionDefinitionV {
        name: d.name,
        environment: d.environment,
        arguments: d.arguments,
        body: rename(d.body, without_all(without(m, d.name), argument_names(d.arguments))),
        result_type: d.result_type,
    }
}

pub open spec fn rename_definitions(s: Seq<FunctionDefinitionV>, m: Renaming) -> Seq<
    FunctionDefinitionV,
>
    decreases s,
{
    if s.len() == 0 {
        Seq::empty()
    } else {
        rename_definitions(s.subrange(0, s.len() - 1), m).push(
            rename_definition(s[s.len() - 1], m),
        )
    }
}

pub(crate) fn lookup_renaming(m: &Vec<(String, String)>, name: &String) -> (r: String)
    ensures
        r@ == renamed(view_renaming(m@), name@),
{
    let ghost v = view_renaming(m@);
    let mut i = m.len();
    assert(v.subrange(0, i as int) =~= v);
    while i > 0
        invariant
            i <= m@.len(),
            v == view_renaming(m@),
            renamed(v, name@) == renamed(v.subrange(0, i as int), name@),
        decreases i,
    {
        assert(v.subrange(0, i as int).drop_last() =~= v.subrange(0, i - 1));
        if m[i - 1].0 == *name {
            return m[i - 1].1.clone();
        }
        i = i - 1;
    }
    name.clone()
}

fn remove_name(m: &Vec<(String, String)>, name: &String) -> (r: Vec<(String, String)>)
    ensures
        view_renaming(r@) == without(view_renaming(m@), name@),
{
    let ghost v = view_renaming(m@);
    let mut r: Vec<(String, String)> = Vec::new();
    for i in 0..m.len()
        invariant
            i <= m@.len(),
            v == view_renaming(m@),
            view_renaming(r@) == without(v.subrange(0, i as int), name@),
    {
        assert(v.subrange(0, i + 1).drop_last() =~= v.subrange(0, i as int));
        if m[i].0 != *name {
            let ghost before = view_renaming(r@);
            r.push((m[i].0.clone(), m[i].1.clone()));
            assert(view_renaming(r@) =~= before.push(v[i as int]));
        }
    }
    assert(v.subrange(0, m@.len() as int) =~= v);
    r
}

fn remove_names(m: &Vec<(String, String)>, removed: &Vec<String>) -> (r: Vec<(String, String)>)
    ensures
        view_renaming(r@) == without_all(view_renaming(m@), names(removed@)),
{
    let mut r = remove_none(m);
    for i in 0..removed.len()
        invariant
            i <= removed@.len(),
            view_renaming(r@) == without_all(view_renaming(m@), names(removed@).subrange(0, i as int)),
    {
        assert(names(removed@).subrange(0, i + 1).drop_last() =~= names(removed@).subrange(
            0,
            i as int,
        ));
        r = remove_name(&r, &removed[i]);
    }
    assert(names(removed@).subrange(0, removed@.len() as int) =~= names(removed@));
    r
}

fn remove_argument_names(m: &Vec<(String, String)>, arguments: &Vec<Argument>) -> (r: Vec<
    (String, String),
>)
    ensures
        view_renaming(r@) == without_all(
            view_renaming(m@),
            argument_names(view_arguments(arguments@)),
        ),
{
    let ghost removed = argument_names(view_arguments(arguments@));
    let mut r = remove_none(m);
    for i in 0..arguments.len()
        invariant
            i <= arguments@.len(),
            removed == argument_names(view_arguments(arguments@)),
            view_renaming(r@) == without_all(view_renaming(m@), removed.subrange(0, i as int)),
    {
        assert(removed.subrange(0, i + 1).drop_last() =~= removed.subrange(0, i as int));
        r = remove_name(&r, &arguments[i].name);
    }
    assert(removed.subrange(0, arguments@.len() as int) =~= removed);
    r
}

fn remove_definition_names(m: &Vec<(String, String)>, definitions: &Vec<FunctionDefinition>) -> (r:
    Vec<(String, String)>)
    ensures
        view_renaming(r@) == without_all(
            view_renaming(m@),
            definition_names(view_function_definitions(definitions@)),
        ),
{
    proof {
        lemma_view_function_definitions(definitions@);
    }
    let ghost removed = definition_names(view_function_definitions(definitions@));
    let mut r = remove_none(m);
    for i in 0..definitions.len()
        invariant
            i <= definitions@.len(),
            removed == definition_names(view_function_definitions(definitions@)),
            removed.len() == definitions@.len(),
            forall|j: int|
                0 <= j < definitions@.len() ==> #[trigger] removed[j] == definitions@[j].name@,
            view_renaming(r@) == without_all(view_renaming(m@), removed.subrange(0, i as int)),
    {
        assert(removed.subrange(0, i + 1).drop_last() =~= removed.subrange(0, i as int));
        r = remove_name(&r, &definitions[i].name);
    }
    assert(removed.subrange(0, definitions@.len() as int) =~= removed);
    r
}

fn remove_none(m: &Vec<(String, String)>) -> (r: Vec<(String, String)>)
    ensures
        view_renaming(r@) == view_renaming(m@),
{
    let mut r: Vec<(String, String)> = Vec::new();
    for i in 0..m.len()
        invariant
            i <= m@.len(),
            r@.len() == i,
            forall|j: int|
                0 <= j < i ==> (#[trigger] r@[j]).0@ == m@[j].0@ && r@[j].1@ == m@[j].1@,
    {
        r.push((m[i].0.clone(), m[i].1.clone()));
    }
    assert(view_renaming(r@) =~= view_renaming(m@));
    r
}

impl Expression {
    /// Renames the free variables of the expression.
    pub fn rename_variables(&self, m: &Vec<(String, String)>) -> (r: Expression)
        ensures
            r@ == rename(self@, view_renaming(m@)),
        decreases self,
    {
        match self {
            Expression::Bitcast(b) => Expression::Bitcast(
                Bitcast {
                    expression: Box::new(b.expression.rename_variables(m)),
                    type_: b.type_.clone(),
                },
            ),
            Expression::Case(Case::Algebraic(c)) => Expression::Case(
                Case::Algebraic(
                    AlgebraicCase {
                        argument: Box::new(c.argument.rename_variables(m)),
                        alternatives: rename_algebraic_alternatives_exec(&c.alternatives, m),
                        default_alternative: rename_default_exec(&c.default_alternative, m),
                    },
                ),
            ),
            Expression::Case(Case::Primitive(c)) => Expression::Case(
                Case::Primitive(
                    PrimitiveCase {
                        argument: Box::new(c.argument.rename_variables(m)),
                        alternatives: rename_primitive_alternatives_exec(&c.alternatives, m),
                        default_alternative: rename_default_exec(&c.default_alternative, m),
                    },
                ),
            ),
            Expression::ConstructorApplication(a) => Expression::ConstructorApplication(
                ConstructorApplication {
                    constructor: a.constructor.clone(),
                    arguments: rename_expressions_exec(&a.arguments, m),
                },
            ),
            Expression::FunctionApplication(a) => Expression::FunctionApplication(
                FunctionApplication {
                    function: Box::new(a.function.rename_variables(m)),
                    argument: Box::new(a.argument.rename_variables(m)),
                },
            ),
            Expression::LetRecursive(l) => {
                let inner = remove_definition_names(m, &l.definitions);
                Expression::LetRecursive(
                    LetRecursive {
                        definitions: rename_definitions_exec(&l.definitions, &inner),
                        expression: Box::new(l.expression.rename_variables(&inner)),
                    },
                )
            },
            Expression::Let(l) => {
                let inner = remove_name(m, &l.name);
                Expression::Let(
                    Let {
                        name: l.name.clone(),
                        type_: l.type_.clone(),
                        bound_expression: Box::new(l.bound_expression.rename_variables(m)),
                        expression: Box::new(l.expression.rename_variables(&inner)),
                    },
                )
            },
            Expression::Primitive(p) => Expression::Primitive(*p),
            Expression::PrimitiveOperation(o) => Expression::PrimitiveOperation(
                PrimitiveOperation {
                    operator: o.operator,
                    lhs: Box::new(o.lhs.rename_variables(m)),
                    rhs: Box::new(o.rhs.rename_variables(m)),
                },
            ),
            Expression::Variable(v) => Expression::Variable(
                Variable { name: lookup_renaming(m, &v.name) },
            ),
        }
    }
}

fn rename_default_exec(default: &Option<Box<Expression>>, m: &Vec<(String, String)>) -> (r: Option<
    Box<Expression>,
>)
    ensures
        view_default(r) == rename_default(view_default(*default), view_renaming(m@)),
    decreases default,
{
    match default {
        Some(d) => Some(Box::new(d.rename_variables(m))),
        None => None,
    }
}

fn rename_expressions_exec(s: &Vec<Expression>, m: &Vec<(String, String)>) -> (r: Vec<Expression>)
    ensures
        view_expressions(r@) == rename_expressions(view_expressions(s@), view_renaming(m@)),
    decreases s,
{
    let ghost v = view_expressions(s@);
    proof {
        lemma_view_expressions(s@);
    }
    let mut r: Vec<Expression> = Vec::new();
    for i in 0..s.len()
        invariant
            i <= s@.len(),
            r@.len() == i,
            v == view_expressions(s@),
            v.len() == s@.len(),
            forall|j: int| 0 <= j < s@.len() ==> #[trigger] v[j] == s@[j]@,
            view_expressions(r@) == rename_expressions(v.subrange(0, i as int), view_renaming(m@)),
    {
        let ghost before = r@;
        r.push(s[i].rename_variables(m));
        assert(r@.subrange(0, r@.len() - 1) =~= before);
        assert(v.subrange(0, i + 1).subrange(0, i as int) =~= v.subrange(0, i as int));
    }
    assert(v.subrange(0, s@.len() as int) =~= v);
    r
}

fn rename_algebraic_alternatives_exec(s: &Vec<AlgebraicAlternative>, m: &Vec<(String, String)>) -> (r:
    Vec<AlgebraicAlternative>)
    ensures
        view_algebraic_alternatives(r@) == rename_algebraic_alternatives(
            view_algebraic_alternatives(s@),
            view_renaming(m@),
        ),
    decreases s,
{
    let ghost v = view_algebraic_alternatives(s@);
    proof {
        lemma_view_algebraic_alternatives(s@);
    }
    let mut r: Vec<AlgebraicAlternative> = Vec::new();
    for i in 0..s.len()
        invariant
            i <= s@.len(),
            r@.len() == i,
            v == view_algebraic_alternatives(s@),
            v.len() == s@.len(),
            forall|j: int| 0 <= j < s@.len() ==> #[trigger] v[j] == view_algebraic_alternative(s@[j]),
            view_algebraic_alternatives(r@) == rename_algebraic_alternatives(
                v.subrange(0, i as int),
                view_renaming(m@),
            ),
    {
        let a = &s[i];
        let inner = remove_names(m, &a.element_names);
        let ghost before = r@;
        r.push(
            AlgebraicAlternative {
                constructor: a.constructor.clone(),
                element_names: clone_strings(&a.element_names),
                expression: a.expression.rename_variables(&inner),
            },
        );
        assert(view_algebraic_alternative(r@[i as int]) == rename_algebraic_alternative(
            v[i as int],
            view_renaming(m@),
        ));
        assert(v.subrange(0, i + 1)[i as int] == v[i as int]);
        assert(r@.subrange(0, r@.len() - 1) =~= before);
        assert(v.subrange(0, i + 1).subrange(0, i as int) =~= v.subrange(0, i as int));
    }
    assert(v.subrange(0, s@.len() as int) =~= v);
    r
}

fn rename_primitive_alternatives_exec(s: &Vec<PrimitiveAlternative>, m: &Vec<(String, String)>) -> (r:
    Vec<PrimitiveAlternative>)
    ensures
        view_primitive_alternatives(r@) == rename_primitive_alternatives(
            view_primitive_alternatives(s@),
            view_renaming(m@),
        ),
    decreases s,
{
    let ghost v = view_primitive_alternatives(s@);
    proof {
        lemma_view_primitive_alternatives(s@);
    }
    let mut r: Vec<PrimitiveAlternative> = Vec::new();
    for i in 0..s.len()
        invariant
            i <= s@.len(),
            r@.len() == i,
            v == view_primitive_alternatives(s@),
            v.len() == s@.len(),
            forall|j: int| 0 <= j < s@.len() ==> #[trigger] v[j] == view_primitive_alternative(s@[j]),
            view_primitive_alternatives(r@) == rename_primitive_alternatives(
                v.subrange(0, i as int),
                view_renaming(m@),
            ),
    {
        let a = &s[i];
        let ghost before = r@;
        r.push(
            PrimitiveAlternative {
                primitive: a.primitive,
                expression: a.expression.rename_variables(m),
            },
        );
        assert(view_primitive_alternative(r@[i as int]) == (PrimitiveAlternativeV {
            primitive: v[i as int].primitive,
            expression: rename(v[i as int].expression, view_renaming(m@)),
        }));
        assert(v.subrange(0, i + 1)[i as int] == v[i as int]);
        assert(r@.subrange(0, r@.len() - 1) =~= before);
        assert(v.subrange(0, i + 1).subrange(0, i as int) =~= v.subrange(0, i as int));
    }
    assert(v.subrange(0, s@.len() as int) =~= v);
    r
}

fn rename_definitions_exec(s: &Vec<FunctionDefinition>, m: &Vec<(String, String)>) -> (r: Vec<
    FunctionDefinition,
>)
    ensures
        view_function_definitions(r@) == rename_definitions(
            view_function_definitions(s@),
            view_renaming(m@),
        ),
    decreases s,
{
    let ghost v = view_function_definitions(s@);
    proof {
        lemma_view_function_definitions(s@);
    }
    let mut r: Vec<FunctionDefinition> = Vec::new();
    for i in 0..s.len()
        invariant
            i <= s@.len(),
            r@.len() == i,
            v == view_function_definitions(s@),
            v.len() == s@.len(),
            forall|j: int| 0 <= j < s@.len() ==> #[trigger] v[j] == s@[j]@,
            view_function_definitions(r@) == rename_definitions(
                v.subrange(0, i as int),
                view_renaming(m@),
            ),
    {
        let ghost before = r@;
        r.push(s[i].rename_variables(m));
        assert(r@.subrange(0, r@.len() - 1) =~= before);
        assert(v.subrange(0, i + 1).subrange(0, i as int) =~= v.subrange(0, i as int));
    }
    assert(v.subrange(0, s@.len() as int) =~= v);
    r
}

impl FunctionDefinition {
    /// Renames the free variables of the function's body, apart from its own
    /// name and its arguments.
    pub fn rename_variables(&self, m: &Vec<(String, String)>) -> (r: FunctionDefinition)
        ensures
            r@ == rename_definition(self@, view_renaming(m@)),
        decreases self,
    {
        let inner = remove_name(m, &self.name);
        let inner = remove_argument_names(&inner, &self.arguments);
        FunctionDefinition {
            name: self.name.clone(),
            environment: clone_arguments(&self.environment),
            arguments: clone_arguments(&self.arguments),
            body: self.body.rename_variables(&inner),
            result_type: self.result_type.clone(),
        }
    }
}


proof fn lemma_without_nothing(name: Seq<char>)
    ensures
        without(Seq::empty(), name) == Seq::<(Seq<char>, Seq<char>)>::empty(),
{
}

proof fn lemma_without_all_nothing(removed: Seq<Seq<char>>)
    ensures
        without_all(Seq::empty(), removed) == Seq::<(Seq<char>, Seq<char>)>::empty(),
    decreases removed.len(),
{
    if removed.len() > 0 {
        lemma_without_all_nothing(removed.drop_last());
    }
}

/// Renaming by no pairs changes nothing.
pub proof fn rename_by_nothing_is_identity(e: ExpressionV)
    ensures
        rename(e, Seq::empty()) == e,
    decreases e,
{
    let m = Seq::<(Seq<char>, Seq<char>)>::empty();
    match e {
        ExpressionV::Bitcast(x, _) => rename_by_nothing_is_identity(*x),
        ExpressionV::AlgebraicCase(argument, alternatives, default) => {
            rename_by_nothing_is_identity(*argument);
            lemma_rename_algebraic_alternatives_by_nothing(alternatives);
            lemma_rename_default_by_nothing(default);
        },
        ExpressionV::PrimitiveCase(argument, alternatives, default) => {
            rename_by_nothing_is_identity(*argument);
            lemma_rename_primitive_alternatives_by_nothing(alternatives);
            lemma_rename_default_by_nothing(default);
        },
        ExpressionV::ConstructorApplication(_, arguments) => {
            lemma_rename_expressions_by_nothing(arguments);
        },
        ExpressionV::FunctionApplication(f, a) => {
            rename_by_nothing_is_identity(*f);
            rename_by_nothing_is_identity(*a);
        },
        ExpressionV::LetRecursive(definitions, x) => {
            lemma_without_all_nothing(definition_names(definitions));
            lemma_rename_definitions_by_nothing(definitions);
            rename_by_nothing_is_identity(*x);
        },
        ExpressionV::Let(name, _, bound, x) => {
            lemma_without_nothing(name);
            rename_by_nothing_is_identity(*bound);
            rename_by_nothing_is_identity(*x);
        },
        ExpressionV::Primitive(_) => {},
        ExpressionV::PrimitiveOperation(_, lhs, rhs) => {
            rename_by_nothing_is_identity(*lhs);
            rename_by_nothing_is_identity(*rhs);
        },
        ExpressionV::Variable(_) => {},
    }
}

proof fn lemma_rename_default_by_nothing(default: Option<Box<ExpressionV>>)
    ensures
        rename_default(default, Seq::empty()) == default,
    decreases default,
{
    match default {
        Some(d) => rename_by_nothing_is_identity(*d),
        None => {},
    }
}

proof fn lemma_rename_expressions_by_nothing(s: Seq<ExpressionV>)
    ensures
        rename_expressions(s, Seq::empty()) == s,
    decreases s,
{
    if s.len() > 0 {
        let p = s.subrange(0, s.len() - 1);
        lemma_rename_expressions_by_nothing(p);
        rename_by_nothing_is_identity(s[s.len() - 1]);
        assert(p.push(s[s.len() - 1]) =~= s);
    }
}

proof fn lemma_rename_algebraic_alternatives_by_nothing(s: Seq<AlgebraicAlternativeV>)
    ensures
        rename_algebraic_alternatives(s, Seq::empty()) == s,
    decreases s,
{
    if s.len() > 0 {
        let p = s.subrange(0, s.len() - 1);
        let a = s[s.len() - 1];
        lemma_rename_algebraic_alternatives_by_nothing(p);
        lemma_without_all_nothing(a.element_names);
        rename_by_nothing_is_identity(a.expression);
        assert(rename_algebraic_alternative(a, Seq::empty()) == a);
        assert(p.push(a) =~= s);
    }
}

proof fn lemma_rename_primitive_alternatives_by_nothing(s: Seq<PrimitiveAlternativeV>)
    ensures
        rename_primitive_alternatives(s, Seq::empty()) == s,
    decreases s,
{
    if s.len() > 0 {
        let p = s.subrange(0, s.len() - 1);
        let a = s[s.len() - 1];
        lemma_rename_primitive_alternatives_by_nothing(p);
        rename_by_nothing_is_identity(a.expression);
        assert(p.push(a) =~= s);
    }
}

/// Renaming a function definition by no pairs changes nothing.
pub proof fn rename_definition_by_nothing_is_identity(d: FunctionDefinitionV)
    ensures
        rename_definition(d, Seq::empty()) == d,
    decreases d,
{
    lemma_without_nothing(d.name);
    lemma_without_all_nothing(argument_names(d.arguments));
    rename_by_nothing_is_identity(d.body);
}

proof fn lemma_rename_definitions_by_nothing(s: Seq<FunctionDefinitionV>)
    ensures
        rename_definitions(s, Seq::empty()) == s,
    decreases s,
{
    if s.len() > 0 {
        let p = s.subrange(0, s.len() - 1);
        lemma_rename_definitions_by_nothing(p);
        rename_definition_by_nothing_is_identity(s[s.len() - 1]);
        assert(p.push(s[s.len() - 1]) =~= s);
    }
}

} // verus!
