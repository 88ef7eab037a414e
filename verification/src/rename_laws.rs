//! Laws tying renaming to free variables: renaming a name that is not free
//! changes nothing, and a renamed name is free no more.
use crate::free_variables::{
    algebraic_alternatives_occurrences, argument_names, default_occurrences, definition_names,
    definition_occurrences, definitions_occurrences, expressions_occurrences, occurrences,
    primitive_alternatives_occurrences,
};
use crate::ir::{AlgebraicAlternativeV, ExpressionV, FunctionDefinitionV, PrimitiveAlternativeV};
use crate::rename::{
    rename, rename_algebraic_alternative, rename_algebraic_alternatives, rename_default,
    rename_definition, rename_definitions, rename_expressions, rename_primitive_alternatives,
    renamed, without, without_all, Renaming,
};
use vstd::prelude::*;

verus! {

broadcast use {
    vstd::seq_lib::lemma_seq_concat_contains_all_elements,
    vstd::seq_lib::lemma_seq_contains_after_push,
    vstd::seq_lib::lemma_seq_empty_contains_nothing,
};

/// Renaming `x` to `a` under the names `excluded`, which shadow `x` where
/// they hold it.
pub open spec fn renaming_of(x: Seq<char>, a: Seq<char>, excluded: Seq<Seq<char>>) -> Renaming {
    if excluded.contains(x) {
        Seq::empty()
    } else {
        seq![(x, a)]
    }
}

proof fn lemma_without_renaming_of(
    x: Seq<char>,
    a: Seq<char>,
    excluded: Seq<Seq<char>>,
    name: Seq<char>,
)
    ensures
        without(renaming_of(x, a, excluded), name) == renaming_of(x, a, excluded.push(name)),
{
    let m = renaming_of(x, a, excluded);
    let empty = Seq::<(Seq<char>, Seq<char>)>::empty();
    assert(excluded.push(name).contains(x) <==> (name == x || excluded.contains(x)));
    if excluded.contains(x) {
        assert(m == empty);
        assert(without(empty, name) == empty);
        assert(renaming_of(x, a, excluded.push(name)) == empty);
    } else {
        assert(m == seq![(x, a)]);
        assert(m.len() == 1);
        assert(m.last() == (x, a));
        assert(m.drop_last() =~= empty);
        assert(without(empty, name) == empty);
        if name == x {
            assert(without(m, name) == without(m.drop_last(), name));
            assert(renaming_of(x, a, excluded.push(name)) == empty);
        } else {
            assert(without(m, name) == without(m.drop_last(), name).push(m.last()));
            assert(empty.push((x, a)) =~= seq![(x, a)]);
            assert(renaming_of(x, a, excluded.push(name)) == seq![(x, a)]);
        }
    }
}

proof fn lemma_without_all_renaming_of(
    x: Seq<char>,
    a: Seq<char>,
    excluded: Seq<Seq<char>>,
    names_: Seq<Seq<char>>,
)
    ensures
        without_all(renaming_of(x, a, excluded), names_) == renaming_of(x, a, excluded + names_),
    decreases names_.len(),
{
    if names_.len() == 0 {
        assert(excluded + names_ =~= excluded);
    } else {
        lemma_without_all_renaming_of(x, a, excluded, names_.drop_last());
        lemma_without_renaming_of(x, a, excluded + names_.drop_last(), names_.last());
        assert((excluded + names_.drop_last()).push(names_.last()) =~= excluded + names_);
    }
}

proof fn lemma_renamed_of(x: Seq<char>, a: Seq<char>, excluded: Seq<Seq<char>>, name: Seq<char>)
    ensures
        renamed(renaming_of(x, a, excluded), name) == if name == x && !excluded.contains(x) {
            a
        } else {
            name
        },
{
    let m = renaming_of(x, a, excluded);
    let empty = Seq::<(Seq<char>, Seq<char>)>::empty();
    assert(renamed(empty, name) == name);
    if !excluded.contains(x) {
        assert(m == seq![(x, a)]);
        assert(m.len() == 1);
        assert(m.last() == (x, a));
        assert(m.drop_last() =~= empty);
        if name != x {
            assert(renamed(m, name) == renamed(m.drop_last(), name));
        }
    }
}

proof fn lemma_rename_expressions_len(s: Seq<ExpressionV>, m: Renaming)
    ensures
        rename_expressions(s, m).len() == s.len(),
    decreases s.len(),
{
    if s.len() > 0 {
        lemma_rename_expressions_len(s.subrange(0, s.len() - 1), m);
    }
}

proof fn lemma_rename_algebraic_alternatives_len(s: Seq<AlgebraicAlternativeV>, m: Renaming)
    ensures
        rename_algebraic_alternatives(s, m).len() == s.len(),
    decreases s.len(),
{
    if s.len() > 0 {
        lemma_rename_algebraic_alternatives_len(s.subrange(0, s.len() - 1), m);
    }
}

proof fn lemma_rename_primitive_alternatives_len(s: Seq<PrimitiveAlternativeV>, m: Renaming)
    ensures
        rename_primitive_alternatives(s, m).len() == s.len(),
    decreases s.len(),
{
    if s.len() > 0 {
        lemma_rename_primitive_alternatives_len(s.subrange(0, s.len() - 1), m);
    }
}

proof fn lemma_rename_definitions_shape(s: Seq<FunctionDefinitionV>, m: Renaming)
    ensures
        rename_definitions(s, m).len() == s.len(),
        forall|i: int|
            0 <= i < s.len() ==> #[trigger] rename_definitions(s, m)[i] == rename_definition(
                s[i],
                m,
            ),
        definition_names(rename_definitions(s, m)) == definition_names(s),
    decreases s.len(),
{
    if s.len() > 0 {
        let p = s.subrange(0, s.len() - 1);
        lemma_rename_definitions_shape(p, m);
        assert forall|i: int| 0 <= i < s.len() implies #[trigger] rename_definitions(s, m)[i]
            == rename_definition(s[i], m) by {
            if i < p.len() {
                assert(p[i] == s[i]);
            }
        }
    }
    assert(definition_names(rename_definitions(s, m)) =~= definition_names(s));
}

/// Renaming `x` to `a` in an expression where `x` is not free, apart from
/// the `excluded` names, changes nothing; and where `a` differs from `x`,
/// `x` is not free in what renaming gives.
pub proof fn rename_and_free_variables(
    e: ExpressionV,
    x: Seq<char>,
    a: Seq<char>,
    excluded: Seq<Seq<char>>,
)
    ensures
        !occurrences(e, excluded).contains(x) ==> rename(e, renaming_of(x, a, excluded)) == e,
        x != a ==> !occurrences(rename(e, renaming_of(x, a, excluded)), excluded).contains(x),
    decreases e,
{
    let m = renaming_of(x, a, excluded);
    match e {
        ExpressionV::Bitcast(y, _) => rename_and_free_variables(*y, x, a, excluded),
        ExpressionV::AlgebraicCase(argument, alternatives, default) => {
            rename_and_free_variables(*argument, x, a, excluded);
            lemma_algebraic_alternatives(alternatives, x, a, excluded);
            lemma_default(default, x, a, excluded);
        },
        ExpressionV::PrimitiveCase(argument, alternatives, default) => {
            rename_and_free_variables(*argument, x, a, excluded);
            lemma_primitive_alternatives(alternatives, x, a, excluded);
            lemma_default(default, x, a, excluded);
        },
        ExpressionV::ConstructorApplication(_, arguments) => {
            lemma_expressions(arguments, x, a, excluded);
        },
        ExpressionV::FunctionApplication(f, g) => {
            rename_and_free_variables(*f, x, a, excluded);
            rename_and_free_variables(*g, x, a, excluded);
        },
        ExpressionV::LetRecursive(definitions, y) => {
            let inner = excluded + definition_names(definitions);
            lemma_without_all_renaming_of(x, a, excluded, definition_names(definitions));
            lemma_rename_definitions_shape(definitions, renaming_of(x, a, inner));
            lemma_definitions(definitions, x, a, inner);
            rename_and_free_variables(*y, x, a, inner);
        },
        ExpressionV::Let(name, _, bound, y) => {
            lemma_without_renaming_of(x, a, excluded, name);
            rename_and_free_variables(*bound, x, a, excluded);
            rename_and_free_variables(*y, x, a, excluded.push(name));
        },
        ExpressionV::Primitive(_) => {},
        ExpressionV::PrimitiveOperation(_, lhs, rhs) => {
            rename_and_free_variables(*lhs, x, a, excluded);
            rename_and_free_variables(*rhs, x, a, excluded);
        },
        ExpressionV::Variable(name) => {
            lemma_renamed_of(x, a, excluded, name);
        },
    }
}

proof fn lemma_default(
    default: Option<Box<ExpressionV>>,
    x: Seq<char>,
    a: Seq<char>,
    excluded: Seq<Seq<char>>,
)
    ensures
        !default_occurrences(default, excluded).contains(x) ==> rename_default(
            default,
            renaming_of(x, a, excluded),
        ) == default,
        x != a ==> !default_occurrences(
            rename_default(default, renaming_of(x, a, excluded)),
            excluded,
        ).contains(x),
    decreases default,
{
    match default {
        Some(d) => rename_and_free_variables(*d, x, a, excluded),
        None => {},
    }
}

proof fn lemma_expressions(s: Seq<ExpressionV>, x: Seq<char>, a: Seq<char>, excluded: Seq<Seq<char>>)
    ensures
        !expressions_occurrences(s, excluded).contains(x) ==> rename_expressions(
            s,
            renaming_of(x, a, excluded),
        ) == s,
        x != a ==> !expressions_occurrences(
            rename_expressions(s, renaming_of(x, a, excluded)),
            excluded,
        ).contains(x),
    decreases s,
{
    let m = renaming_of(x, a, excluded);
    if s.len() > 0 {
        let p = s.subrange(0, s.len() - 1);
        let last = s[s.len() - 1];
        lemma_expressions(p, x, a, excluded);
        rename_and_free_variables(last, x, a, excluded);
        lemma_rename_expressions_len(p, m);
        let t = rename_expressions(s, m);
        assert(t.subrange(0, t.len() - 1) =~= rename_expressions(p, m));
        assert(t[t.len() - 1] == rename(last, m));
        assert(p.push(last) =~= s);
    }
}

proof fn lemma_algebraic_alternatives(
    s: Seq<AlgebraicAlternativeV>,
    x: Seq<char>,
    a: Seq<char>,
    excluded: Seq<Seq<char>>,
)
    ensures
        !algebraic_alternatives_occurrences(s, excluded).contains(x)
            ==> rename_algebraic_alternatives(s, renaming_of(x, a, excluded)) == s,
        x != a ==> !algebraic_alternatives_occurrences(
            rename_algebraic_alternatives(s, renaming_of(x, a, excluded)),
            excluded,
        ).contains(x),
    decreases s,
{
    let m = renaming_of(x, a, excluded);
    if s.len() > 0 {
        let p = s.subrange(0, s.len() - 1);
        let last = s[s.len() - 1];
        lemma_algebraic_alternatives(p, x, a, excluded);
        lemma_without_all_renaming_of(x, a, excluded, last.element_names);
        rename_and_free_variables(last.expression, x, a, excluded + last.element_names);
        lemma_rename_algebraic_alternatives_len(p, m);
        let t = rename_algebraic_alternatives(s, m);
        assert(t.subrange(0, t.len() - 1) =~= rename_algebraic_alternatives(p, m));
        assert(t[t.len() - 1] == rename_algebraic_alternative(last, m));
        assert(p.push(last) =~= s);
    }
}

proof fn lemma_primitive_alternatives(
    s: Seq<PrimitiveAlternativeV>,
    x: Seq<char>,
    a: Seq<char>,
    excluded: Seq<Seq<char>>,
)
    ensures
        !primitive_alternatives_occurrences(s, excluded).contains(x)
            ==> rename_primitive_alternatives(s, renaming_of(x, a, excluded)) == s,
        x != a ==> !primitive_alternatives_occurrences(
            rename_primitive_alternatives(s, renaming_of(x, a, excluded)),
            excluded,
        ).contains(x),
    decreases s,
{
    let m = renaming_of(x, a, excluded);
    if s.len() > 0 {
        let p = s.subrange(0, s.len() - 1);
        let last = s[s.len() - 1];
        lemma_primitive_alternatives(p, x, a, excluded);
        rename_and_free_variables(last.expression, x, a, excluded);
        lemma_rename_primitive_alternatives_len(p, m);
        let t = rename_primitive_alternatives(s, m);
        assert(t.subrange(0, t.len() - 1) =~= rename_primitive_alternatives(p, m));
        assert(t[t.len() - 1] == PrimitiveAlternativeV {
            primitive: last.primitive,
            expression: rename(last.expression, m),
        });
        assert(p.push(last) =~= s);
    }
}

/// Renaming `x` to `a` in a function definition where `x` is not free
/// changes nothing; and where `a` differs from `x`, `x` is not free in what
/// renaming gives.
pub proof fn rename_definition_and_free_variables(
    d: FunctionDefinitionV,
    x: Seq<char>,
    a: Seq<char>,
    excluded: Seq<Seq<char>>,
)
    ensures
        !definition_occurrences(d, excluded).contains(x) ==> rename_definition(
            d,
            renaming_of(x, a, excluded),
        ) == d,
        x != a ==> !definition_occurrences(
            rename_definition(d, renaming_of(x, a, excluded)),
            excluded,
        ).contains(x),
    decreases d,
{
    let inner = excluded.push(d.name) + argument_names(d.arguments);
    lemma_without_renaming_of(x, a, excluded, d.name);
    lemma_without_all_renaming_of(x, a, excluded.push(d.name), argument_names(d.arguments));
    rename_and_free_variables(d.body, x, a, inner);
}

proof fn lemma_definitions(
    s: Seq<FunctionDefinitionV>,
    x: Seq<char>,
    a: Seq<char>,
    excluded: Seq<Seq<char>>,
)
    ensures
        !definitions_occurrences(s, excluded).contains(x) ==> rename_definitions(
            s,
            renaming_of(x, a, excluded),
        ) == s,
        x != a ==> !definitions_occurrences(
            rename_definitions(s, renaming_of(x, a, excluded)),
            excluded,
        ).contains(x),
    decreases s,
{
    let m = renaming_of(x, a, excluded);
    if s.len() > 0 {
        let p = s.subrange(0, s.len() - 1);
        let last = s[s.len() - 1];
        lemma_definitions(p, x, a, excluded);
        rename_definition_and_free_variables(last, x, a, excluded);
        lemma_rename_definitions_shape(p, m);
        lemma_rename_definitions_shape(s, m);
        let t = rename_definitions(s, m);
        assert(t.subrange(0, t.len() - 1) =~= rename_definitions(p, m));
        assert(t[t.len() - 1] == rename_definition(last, m));
        assert(p.push(last) =~= s);
    }
}

/// Renaming a name that is not free in an expression changes nothing.
pub proof fn renaming_a_name_not_free_changes_nothing(e: ExpressionV, x: Seq<char>, a: Seq<char>)
    requires
        !occurrences(e, Seq::empty()).contains(x),
    ensures
        rename(e, seq![(x, a)]) == e,
{
    rename_and_free_variables(e, x, a, Seq::empty());
    assert(renaming_of(x, a, Seq::empty()) == seq![(x, a)]);
}

/// After renaming `x` to another name, `x` is not free any more.
pub proof fn renamed_name_is_not_free(e: ExpressionV, x: Seq<char>, a: Seq<char>)
    requires
        x != a,
    ensures
        !occurrences(rename(e, seq![(x, a)]), Seq::empty()).contains(x),
{
    rename_and_free_variables(e, x, a, Seq::empty());
    assert(renaming_of(x, a, Seq::empty()) == seq![(x, a)]);
}

} // verus!
