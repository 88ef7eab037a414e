//! Free variables of expressions and definitions.
use crate::ir::{
    lemma_view_algebraic_alternatives, lemma_view_expressions, lemma_view_function_definitions,
    names, view_algebraic_alternatives, view_expression, view_default, view_arguments, view_expressions,
    view_function_definitions, AlgebraicAlternativeV, ArgumentV, Case, Definition, DefinitionV,
    Expression, ExpressionV, FunctionDefinition, FunctionDefinitionV, PrimitiveAlternativeV,
    view_primitive_alternatives, lemma_view_primitive_alternatives, Argument,
};
use vstd::prelude::*;

verus! {

broadcast use vstd::std_specs::vec::group_vec_axioms;

pub open spec fn argument_names(arguments: Seq<ArgumentV>) -> Seq<Seq<char>> {
    arguments.map_values(|a: ArgumentV| a.name)
}

pub open spec fn definition_names(definitions: Seq<FunctionDefinitionV>) -> Seq<Seq<char>> {
    definitions.map_values(|d: FunctionDefinitionV| d.name)
}

/// The occurrences of free variables of an expression, in order, not
/// counting the `excluded` names.
pub open spec fn occurrences(e: ExpressionV, excluded: Seq<Seq<char>>) -> Seq<Seq<char>>
    decreases e,
{
    match e {
        ExpressionV::Bitcast(x, _) => occurrences(*x, excluded),
        ExpressionV::AlgebraicCase(argument, alternatives, default) => occurrences(
            *argument,
            excluded,
        ) + algebraic_alternatives_occurrences(alternatives, excluded) + default_occurrences(
            default,
            excluded,
        ),
        ExpressionV::PrimitiveCase(argument, alternatives, default) => occurrences(
            *argument,
            excluded,
        ) + primitive_alternatives_occurrences(alternatives, excluded) + default_occurrences(
            default,
            excluded,
        ),
        ExpressionV::ConstructorApplication(_, arguments) => expressions_occurrences(
            arguments,
            excluded,
        ),
        ExpressionV::FunctionApplication(f, a) => occurrences(*f, excluded) + occurrences(
            *a,
            excluded,
        ),
        ExpressionV::LetRecursive(definitions, x) => {
            let inner = excluded + definition_names(definitions);
            definitions_occurrences(definitions, inner) + occurrences(*x, inner)
        },
        ExpressionV::Let(name, _, bound, x) => occurrences(*bound, excluded) + occurrences(
            *x,
            excluded.push(name),
        ),
        ExpressionV::Primitive(_) => Seq::empty(),
        ExpressionV::PrimitiveOperation(_, lhs, rhs) => occurrences(*lhs, excluded) + occurrences(
            *rhs,
            excluded,
        ),
        ExpressionV::Variable(name) => if excluded.contains(name) {
            Seq::empty()
        } else {
            seq![name]
        },
    }
}

pub open spec fn default_occurrences(
    default: Option<Box<ExpressionV>>,
    excluded: Seq<Seq<char>>,
) -> Seq<Seq<char>>
    decreases default,
{
    match default {
        Some(d) => occurrences(*d, excluded),
        None => Seq::empty(),
    }
}

pub open spec fn expressions_occurrences(s: Seq<ExpressionV>, excluded: Seq<Seq<char>>) -> Seq<
    Seq<char>,
>
    decreases s,
{
    if s.len() == 0 {
        Seq::empty()
    } else {
        expressions_occurrences(s.subrange(0, s.len() - 1), excluded) + occurrences(
            s[s.len() - 1],
            excluded,
        )
    }
}

pub open spec fn algebraic_alternatives_occurrences(
    s: Seq<AlgebraicAlternativeV>,
    excluded: Seq<Seq<char>>,
) -> Seq<Seq<char>>
    decreases s,
{
    if s.len() == 0 {
        Seq::empty()
    } else {
        algebraic_alternatives_occurrences(s.subrange(0, s.len() - 1), excluded) + occurrences(
            s[s.len() - 1].expression,
            excluded + s[s.len() - 1].element_names,
        )
    }
}

pub open spec fn primitive_alternatives_occurrences(
    s: Seq<PrimitiveAlternativeV>,
    excluded: Seq<Seq<char>>,
) -> Seq<Seq<char>>
    decreases s,
{
    if s.len() == 0 {
        Seq::empty()
    } else {
        primitive_alternatives_occurrences(s.subrange(0, s.len() - 1), excluded) + occurrences(
            s[s.len() - 1].expression,
            excluded,
        )
    }
}

/// The free variable occurrences of a function definition: those of its
/// body, apart from the function's own name and its arguments.
pub open spec fn definition_occurrences(d: FunctionDefinitionV, excluded: Seq<Seq<char>>) -> Seq<
    Seq<char>,
>
    decreases d,
{
    occurrences(d.body, excluded.push(d.name) + argument_names(d.arguments))
}

pub open spec fn definitions_occurrences(
    s: Seq<FunctionDefinitionV>,
    excluded: Seq<Seq<char>>,
) -> Seq<Seq<char>>
    decreases s,
{
    if s.len() == 0 {
        Seq::empty()
    } else {
        definitions_occurrences(s.subrange(0, s.len() - 1), excluded) + definition_occurrences(
            s[s.len() - 1],
            excluded,
        )
    }
}

/// Appends the names of `s` not yet present to `found`, in order.
pub open spec fn extend_distinct(found: Seq<Seq<char>>, s: Seq<Seq<char>>) -> Seq<Seq<char>>
    decreases s.len(),
{
    if s.len() == 0 {
        found
    } else {
        let before = extend_distinct(found, s.drop_last());
        if before.contains(s.last()) {
            before
        } else {
            before.push(s.last())
        }
    }
}

/// The names of `s` without repetitions, in the order of first occurrence.
pub open spec fn distinct(s: Seq<Seq<char>>) -> Seq<Seq<char>> {
    extend_distinct(Seq::empty(), s)
}

pub proof fn lemma_extend_distinct_append(found: Seq<Seq<char>>, a: Seq<Seq<char>>, b: Seq<Seq<char>>)
    ensures
        extend_distinct(found, a + b) == extend_distinct(extend_distinct(found, a), b),
    decreases b.len(),
{
    if b.len() == 0 {
        assert(a + b =~= a);
    } else {
        assert((a + b).drop_last() =~= a + b.drop_last());
        assert((a + b).last() == b.last());
        lemma_extend_distinct_append(found, a, b.drop_last());
    }
}

/// What `extend_distinct` gives: no repetitions (where `found` has none),
/// and exactly the names of `found` and `s`.
pub proof fn lemma_extend_distinct(found: Seq<Seq<char>>, s: Seq<Seq<char>>)
    requires
        found.no_duplicates(),
    ensures
        extend_distinct(found, s).no_duplicates(),
        forall|x: Seq<char>|
            #[trigger] extend_distinct(found, s).contains(x) <==> (found.contains(x) || s.contains(
                x,
            )),
        extend_distinct(found, s).len() >= found.len(),
        extend_distinct(found, s).subrange(0, found.len() as int) == found,
    decreases s.len(),
{
    if s.len() > 0 {
        lemma_extend_distinct(found, s.drop_last());
        let before = extend_distinct(found, s.drop_last());
        assert forall|x: Seq<char>| #[trigger]
            extend_distinct(found, s).contains(x) <==> (found.contains(x) || s.contains(x)) by {
            if s.contains(x) && !s.drop_last().contains(x) {
                assert(x == s.last()) by {
                    let i = choose|i: int| 0 <= i < s.len() && s[i] == x;
                    if i < s.len() - 1 {
                        assert(s.drop_last()[i] == x);
                    }
                }
            }
            if s.drop_last().contains(x) {
                let i = choose|i: int| 0 <= i < s.drop_last().len() && s.drop_last()[i] == x;
                assert(s[i] == x);
            }
            if !before.contains(s.last()) && x == s.last() {
                assert(before.push(s.last())[before.len() as int] == x);
            }
            if before.contains(x) && !before.contains(s.last()) {
                let i = choose|i: int| 0 <= i < before.len() && before[i] == x;
                assert(before.push(s.last())[i] == x);
            }
            if !before.contains(s.last()) && extend_distinct(found, s).contains(x) {
                let i = choose|i: int|
                    0 <= i < before.len() + 1 && before.push(s.last())[i] == x;
                if i < before.len() {
                    assert(before[i] == x);
                }
            }
        }
        if !before.contains(s.last()) {
            assert(before.push(s.last()).subrange(0, found.len() as int) =~= before.subrange(
                0,
                found.len() as int,
            ));
        }
    }
}

fn contains_name(names_: &Vec<String>, name: &String) -> (r: bool)
    ensures
        r == names(names_@).contains(name@),
{
    let mut i: usize = 0;
    while i < names_.len()
        invariant
            i <= names_@.len(),
            forall|j: int| 0 <= j < i ==> names_@[j]@ != name@,
        decreases names_@.len() - i,
    {
        if names_[i] == *name {
            assert(names(names_@)[i as int] == name@);
            return true;
        }
        i = i + 1;
    }
    assert forall|j: int| 0 <= j < names(names_@).len() implies names(names_@)[j] != name@ by {
        assert(names(names_@)[j] == names_@[j]@);
    }
    false
}

fn add_name(found: &mut Vec<String>, name: &String)
    ensures
        names(final(found)@) == extend_distinct(names(old(found)@), seq![name@]),
{
    assert(seq![name@].drop_last() =~= Seq::<Seq<char>>::empty());
    reveal_with_fuel(extend_distinct, 2);
    if !contains_name(found, name) {
        found.push(name.clone());
        assert(names(found@) =~= names(old(found)@).push(name@));
    }
}

fn extend_names(excluded: &Vec<String>, more: &Vec<String>) -> (r: Vec<String>)
    ensures
        names(r@) == names(excluded@) + names(more@),
{
    let mut r = crate::ir::clone_strings(excluded);
    for i in 0..more.len()
        invariant
            i <= more@.len(),
            names(r@) == names(excluded@) + names(more@.subrange(0, i as int)),
    {
        let ghost before = names(r@);
        r.push(more[i].clone());
        assert(names(r@) =~= before.push(more@[i as int]@));
        assert(names(r@) =~= names(excluded@) + names(more@.subrange(0, i + 1)));
    }
    assert(more@.subrange(0, more@.len() as int) =~= more@);
    r
}

fn extend_argument_names(excluded: &Vec<String>, arguments: &Vec<Argument>) -> (r: Vec<String>)
    ensures
        names(r@) == names(excluded@) + argument_names(view_arguments(arguments@)),
{
    let mut r = crate::ir::clone_strings(excluded);
    let ghost more = argument_names(view_arguments(arguments@));
    for i in 0..arguments.len()
        invariant
            i <= arguments@.len(),
            more == argument_names(view_arguments(arguments@)),
            names(r@) == names(excluded@) + more.subrange(0, i as int),
    {
        let ghost before = names(r@);
        r.push(arguments[i].name.clone());
        assert(names(r@) =~= before.push(more[i as int]));
        assert(names(r@) =~= names(excluded@) + more.subrange(0, i + 1));
    }
    assert(more.subrange(0, arguments@.len() as int) =~= more);
    r
}

fn extend_definition_names(excluded: &Vec<String>, definitions: &Vec<FunctionDefinition>) -> (r:
    Vec<String>)
    ensures
        names(r@) == names(excluded@) + definition_names(view_function_definitions(definitions@)),
{
    proof {
        lemma_view_function_definitions(definitions@);
    }
    let mut r = crate::ir::clone_strings(excluded);
    let ghost more = definition_names(view_function_definitions(definitions@));
    for i in 0..definitions.len()
        invariant
            i <= definitions@.len(),
            more == definition_names(view_function_definitions(definitions@)),
            more.len() == definitions@.len(),
            forall|j: int| 0 <= j < definitions@.len() ==> #[trigger] more[j] == definitions@[j].name@,
            names(r@) == names(excluded@) + more.subrange(0, i as int),
    {
        let ghost before = names(r@);
        r.push(definitions[i].name.clone());
        assert(names(r@) =~= before.push(more[i as int]));
        assert(names(r@) =~= names(excluded@) + more.subrange(0, i + 1));
    }
    assert(more.subrange(0, definitions@.len() as int) =~= more);
    r
}

fn collect(expression: &Expression, excluded: &Vec<String>, found: &mut Vec<String>)
    ensures
        names(final(found)@) == extend_distinct(
            names(old(found)@),
            occurrences(expression@, names(excluded@)),
        ),
    decreases expression,
{
    let ghost ex = names(excluded@);
    let ghost start = names(found@);
    match expression {
        Expression::Bitcast(b) => collect(&b.expression, excluded, found),
        Expression::Case(Case::Algebraic(c)) => {
            collect(&c.argument, excluded, found);
            let ghost after_argument = names(found@);
            collect_algebraic_alternatives(&c.alternatives, excluded, found);
            let ghost after_alternatives = names(found@);
            collect_default(&c.default_alternative, excluded, found);
            proof {
                let a = occurrences(view_expression(*c.argument), ex);
                let b = algebraic_alternatives_occurrences(view_algebraic_alternatives(c.alternatives@), ex);
                let d = default_occurrences(view_default(c.default_alternative), ex);
                lemma_extend_distinct_append(start, a, b);
                lemma_extend_distinct_append(start, a + b, d);
            }
        },
        Expression::Case(Case::Primitive(c)) => {
            collect(&c.argument, excluded, found);
            collect_primitive_alternatives(&c.alternatives, excluded, found);
            collect_default(&c.default_alternative, excluded, found);
            proof {
                let a = occurrences(view_expression(*c.argument), ex);
                let b = primitive_alternatives_occurrences(view_primitive_alternatives(c.alternatives@), ex);
                let d = default_occurrences(view_default(c.default_alternative), ex);
                lemma_extend_distinct_append(start, a, b);
                lemma_extend_distinct_append(start, a + b, d);
            }
        },
        Expression::ConstructorApplication(a) => collect_expressions(&a.arguments, excluded, found),
        Expression::FunctionApplication(a) => {
            collect(&a.function, excluded, found);
            collect(&a.argument, excluded, found);
            proof {
                lemma_extend_distinct_append(start, occurrences(view_expression(*a.function), ex), occurrences(view_expression(*a.argument), ex));
            }
        },
        Expression::LetRecursive(l) => {
            let inner = extend_definition_names(excluded, &l.definitions);
            collect_definitions(&l.definitions, &inner, found);
            collect(&l.expression, &inner, found);
            proof {
                let ex2 = names(inner@);
                lemma_extend_distinct_append(
                    start,
                    definitions_occurrences(view_function_definitions(l.definitions@), ex2),
                    occurrences(view_expression(*l.expression), ex2),
                );
            }
        },
        Expression::Let(l) => {
            collect(&l.bound_expression, excluded, found);
            let mut inner = crate::ir::clone_strings(excluded);
            inner.push(l.name.clone());
            assert(names(inner@) =~= ex.push(l.name@));
            collect(&l.expression, &inner, found);
            proof {
                lemma_extend_distinct_append(
                    start,
                    occurrences(view_expression(*l.bound_expression), ex),
                    occurrences(view_expression(*l.expression), ex.push(l.name@)),
                );
            }
        },
        Expression::Primitive(_) => {},
        Expression::PrimitiveOperation(o) => {
            collect(&o.lhs, excluded, found);
            collect(&o.rhs, excluded, found);
            proof {
                lemma_extend_distinct_append(start, occurrences(view_expression(*o.lhs), ex), occurrences(view_expression(*o.rhs), ex));
            }
        },
        Expression::Variable(v) => {
            if !contains_name(excluded, &v.name) {
                add_name(found, &v.name);
            }
        },
    }
}

fn collect_default(default: &Option<Box<Expression>>, excluded: &Vec<String>, found: &mut Vec<String>)
    ensures
        names(final(found)@) == extend_distinct(
            names(old(found)@),
            default_occurrences(view_default(*default), names(excluded@)),
        ),
    decreases default,
{
    match default {
        Some(d) => collect(d, excluded, found),
        None => {},
    }
}

fn collect_expressions(expressions: &Vec<Expression>, excluded: &Vec<String>, found: &mut Vec<String>)
    ensures
        names(final(found)@) == extend_distinct(
            names(old(found)@),
            expressions_occurrences(view_expressions(expressions@), names(excluded@)),
        ),
    decreases expressions,
{
    let ghost ex = names(excluded@);
    let ghost start = names(found@);
    let ghost es = view_expressions(expressions@);
    proof {
        lemma_view_expressions(expressions@);
    }
    for i in 0..expressions.len()
        invariant
            i <= expressions@.len(),
            ex == names(excluded@),
            es == view_expressions(expressions@),
            es.len() == expressions@.len(),
            forall|j: int| 0 <= j < expressions@.len() ==> #[trigger] es[j] == expressions@[j]@,
            names(found@) == extend_distinct(
                start,
                expressions_occurrences(es.subrange(0, i as int), ex),
            ),
    {
        collect(&expressions[i], excluded, found);
        proof {
            assert(es.subrange(0, i + 1).subrange(0, i as int) =~= es.subrange(0, i as int));
            lemma_extend_distinct_append(
                start,
                expressions_occurrences(es.subrange(0, i as int), ex),
                occurrences(es[i as int], ex),
            );
        }
    }
    assert(es.subrange(0, expressions@.len() as int) =~= es);
}

fn collect_algebraic_alternatives(
    alternatives: &Vec<crate::ir::AlgebraicAlternative>,
    excluded: &Vec<String>,
    found: &mut Vec<String>,
)
    ensures
        names(final(found)@) == extend_distinct(
            names(old(found)@),
            algebraic_alternatives_occurrences(
                view_algebraic_alternatives(alternatives@),
                names(excluded@),
            ),
        ),
    decreases alternatives,
{
    let ghost ex = names(excluded@);
    let ghost start = names(found@);
    let ghost s = view_algebraic_alternatives(alternatives@);
    proof {
        lemma_view_algebraic_alternatives(alternatives@);
    }
    for i in 0..alternatives.len()
        invariant
            i <= alternatives@.len(),
            ex == names(excluded@),
            s == view_algebraic_alternatives(alternatives@),
            s.len() == alternatives@.len(),
            forall|j: int|
                0 <= j < alternatives@.len() ==> #[trigger] s[j]
                    == crate::ir::view_algebraic_alternative(alternatives@[j]),
            names(found@) == extend_distinct(
                start,
                algebraic_alternatives_occurrences(s.subrange(0, i as int), ex),
            ),
    {
        let alternative = &alternatives[i];
        let inner = extend_names(excluded, &alternative.element_names);
        collect(&alternative.expression, &inner, found);
        proof {
            assert(s.subrange(0, i + 1).subrange(0, i as int) =~= s.subrange(0, i as int));
            lemma_extend_distinct_append(
                start,
                algebraic_alternatives_occurrences(s.subrange(0, i as int), ex),
                occurrences(s[i as int].expression, ex + s[i as int].element_names),
            );
        }
    }
    assert(s.subrange(0, alternatives@.len() as int) =~= s);
}

fn collect_primitive_alternatives(
    alternatives: &Vec<crate::ir::PrimitiveAlternative>,
    excluded: &Vec<String>,
    found: &mut Vec<String>,
)
    ensures
        names(final(found)@) == extend_distinct(
            names(old(found)@),
            primitive_alternatives_occurrences(
                view_primitive_alternatives(alternatives@),
                names(excluded@),
            ),
        ),
    decreases alternatives,
{
    let ghost ex = names(excluded@);
    let ghost start = names(found@);
    let ghost s = view_primitive_alternatives(alternatives@);
    proof {
        lemma_view_primitive_alternatives(alternatives@);
    }
    for i in 0..alternatives.len()
        invariant
            i <= alternatives@.len(),
            ex == names(excluded@),
            s == view_primitive_alternatives(alternatives@),
            s.len() == alternatives@.len(),
            forall|j: int|
                0 <= j < alternatives@.len() ==> #[trigger] s[j]
                    == crate::ir::view_primitive_alternative(alternatives@[j]),
            names(found@) == extend_distinct(
                start,
                primitive_alternatives_occurrences(s.subrange(0, i as int), ex),
            ),
    {
        collect(&alternatives[i].expression, excluded, found);
        proof {
            assert(s.subrange(0, i + 1).subrange(0, i as int) =~= s.subrange(0, i as int));
            lemma_extend_distinct_append(
                start,
                primitive_alternatives_occurrences(s.subrange(0, i as int), ex),
                occurrences(s[i as int].expression, ex),
            );
        }
    }
    assert(s.subrange(0, alternatives@.len() as int) =~= s);
}

fn collect_definition(definition: &FunctionDefinition, excluded: &Vec<String>, found: &mut Vec<String>)
    ensures
        names(final(found)@) == extend_distinct(
            names(old(found)@),
            definition_occurrences(definition@, names(excluded@)),
        ),
    decreases definition,
{
    let mut inner = crate::ir::clone_strings(excluded);
    inner.push(definition.name.clone());
    assert(names(inner@) =~= names(excluded@).push(definition.name@));
    let inner = extend_argument_names(&inner, &definition.arguments);
    collect(&definition.body, &inner, found);
}

fn collect_definitions(
    definitions: &Vec<FunctionDefinition>,
    excluded: &Vec<String>,
    found: &mut Vec<String>,
)
    ensures
        names(final(found)@) == extend_distinct(
            names(old(found)@),
            definitions_occurrences(view_function_definitions(definitions@), names(excluded@)),
        ),
    decreases definitions,
{
    let ghost ex = names(excluded@);
    let ghost start = names(found@);
    let ghost s = view_function_definitions(definitions@);
    proof {
        lemma_view_function_definitions(definitions@);
    }
    for i in 0..definitions.len()
        invariant
            i <= definitions@.len(),
            ex == names(excluded@),
            s == view_function_definitions(definitions@),
            s.len() == definitions@.len(),
            forall|j: int| 0 <= j < definitions@.len() ==> #[trigger] s[j] == definitions@[j]@,
            names(found@) == extend_distinct(
                start,
                definitions_occurrences(s.subrange(0, i as int), ex),
            ),
    {
        collect_definition(&definitions[i], excluded, found);
        proof {
            assert(s.subrange(0, i + 1).subrange(0, i as int) =~= s.subrange(0, i as int));
            lemma_extend_distinct_append(
                start,
                definitions_occurrences(s.subrange(0, i as int), ex),
                definition_occurrences(s[i as int], ex),
            );
        }
    }
    assert(s.subrange(0, definitions@.len() as int) =~= s);
}

impl Expression {
    /// The free variables of the expression apart from `excluded`, each once,
    /// in the order of their first occurrence.
    pub fn find_variables(&self, excluded: &Vec<String>) -> (r: Vec<String>)
        ensures
            names(r@) == distinct(occurrences(self@, names(excluded@))),
    {
        let mut found: Vec<String> = Vec::new();
        assert(names(found@) =~= Seq::<Seq<char>>::empty());
        collect(self, excluded, &mut found);
        found
    }
}

impl FunctionDefinition {
    /// The free variables of the function's body apart from `excluded`, the
    /// function's own name and its arguments, each once, in the order of
    /// their first occurrence.
    pub fn find_variables(&self, excluded: &Vec<String>) -> (r: Vec<String>)
        ensures
            names(r@) == distinct(definition_occurrences(self@, names(excluded@))),
    {
        let mut found: Vec<String> = Vec::new();
        assert(names(found@) =~= Seq::<Seq<char>>::empty());
        collect_definition(self, excluded, &mut found);
        found
    }
}

pub open spec fn global_occurrences(d: DefinitionV, excluded: Seq<Seq<char>>) -> Seq<Seq<char>> {
    match d {
        DefinitionV::Function(f) => definition_occurrences(f, excluded),
        DefinitionV::Value(v) => occurrences(v.body, excluded),
    }
}

impl Definition {
    /// The free variables of a global definition apart from `excluded` (and,
    /// for a function, apart from its own name and its arguments), each once,
    /// in the order of their first occurrence.
    pub fn find_variables(&self, excluded: &Vec<String>) -> (r: Vec<String>)
        ensures
            names(r@) == distinct(global_occurrences(self@, names(excluded@))),
    {
        match self {
            Definition::FunctionDefinition(f) => f.find_variables(excluded),
            Definition::ValueDefinition(v) => v.body.find_variables(excluded),
        }
    }
}

} // verus!
