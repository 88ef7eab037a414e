//! The order in which the code generator initializes global values: a
//! topological order of the graph whose edges lead from each value to the
//! definitions that refer to it.
use crate::analysis::sort_global_variables::{
    definition_index, dependencies, find_definition, is_path, is_value_name, is_value_name_exec,
    lemma_definition_index, distinct_names, lists_values, name_of, precedes, Edges,
};
use crate::analysis::type_check::global_name;
use crate::backend::error::CompileError;
use crate::ir::{names, view_definitions, DefinitionV, Module, ModuleV};
use vstd::prelude::*;

verus! {

broadcast use vstd::std_specs::vec::group_vec_axioms;

/// A path of at least one edge leads from a node back to itself.
pub open spec fn has_cycle(edges: Edges) -> bool {
    exists|p: Seq<usize>| #[trigger] is_path(edges, p) && p.len() >= 2 && p[0] == p.last()
}

/// `order` lists each of the `node_count` nodes once, every node before the
/// nodes its edges lead to.
pub open spec fn is_topological_order(node_count: usize, edges: Edges, order: Seq<usize>) -> bool {
    &&& order.len() == node_count
    &&& order.no_duplicates()
    &&& forall|i: int| 0 <= i < order.len() ==> #[trigger] order[i] < node_count
    &&& forall|u: usize| u < node_count ==> #[trigger] order.contains(u)
    &&& forall|i: int, j: int|
        0 <= i < order.len() && 0 <= j < order.len() && edges.contains(
            (#[trigger] order[i], #[trigger] order[j]),
        ) ==> i < j
}

/// The order that `petgraph`'s topological sort gives the graph, or `None`
/// where it finds a cycle.
pub uninterp spec fn topological_sort(node_count: usize, edges: Seq<(usize, usize)>) -> Option<
    Seq<usize>,
>;

pub open spec fn view_order(order: Option<Vec<usize>>) -> Option<Seq<usize>> {
    match order {
        Some(o) => Some(o@),
        None => None,
    }
}

/// A topological order of the graph of `node_count` nodes and the given
/// edges, computed by `petgraph::algo::toposort` on a
/// `petgraph::graph::Graph` built from them, or `None` where that function
/// reports a cycle. As its documentation states, the order holds every node
/// before its successors, and a cycle (a self loop too) is reported exactly
/// when the graph is not acyclic. Which of the valid orders comes out is left
/// to the algorithm, and is named by `topological_sort`.
#[verifier::external_body]
fn topological_order(node_count: usize, edges: &Vec<(usize, usize)>) -> (r: Option<Vec<usize>>)
    requires
        forall|k: int|
            0 <= k < edges@.len() ==> (#[trigger] edges@[k]).0 < node_count && edges@[k].1
                < node_count,
    ensures
        view_order(r) == topological_sort(node_count, edges@),
        r is None <==> has_cycle(edges@),
        r matches Some(order) ==> is_topological_order(node_count, edges@, order@),
{
    let mut graph = petgraph::graph::Graph::<(), (), petgraph::Directed, usize>::with_capacity(
        node_count,
        edges.len(),
    );
    for _ in 0..node_count {
        graph.add_node(());
    }
    for (from, to) in edges {
        graph.add_edge(petgraph::graph::NodeIndex::new(*from), petgraph::graph::NodeIndex::new(*to), ());
    }
    match petgraph::algo::toposort(&graph, None) {
        Ok(order) => Some(order.into_iter().map(|i| i.index()).collect()),
        Err(_) => None,
    }
}

/// The edges from the definitions of the values among `names_` to the
/// definition of `target`.
pub open spec fn value_edges_to(
    definitions: Seq<DefinitionV>,
    target: Seq<char>,
    names_: Seq<Seq<char>>,
) -> Edges
    decreases names_.len(),
{
    if names_.len() == 0 {
        Seq::empty()
    } else {
        value_edges_to(definitions, target, names_.drop_last()) + if is_value_name(
            definitions,
            names_.last(),
        ) {
            match definition_index(definitions, names_.last()) {
                Some(j) => seq![(j, definition_index(definitions, target).unwrap())],
                None => Seq::empty(),
            }
        } else {
            Seq::empty()
        }
    }
}

/// The edges contributed by the first `k` definitions: from each value that
/// a definition refers to, to the definition.
pub open spec fn value_dependency_edges(definitions: Seq<DefinitionV>, k: int) -> Edges
    decreases k,
{
    if k <= 0 {
        Seq::empty()
    } else {
        value_dependency_edges(definitions, k - 1) + value_edges_to(
            definitions,
            global_name(definitions[k - 1]),
            dependencies(definitions[k - 1]),
        )
    }
}

/// The names of the values among the definitions at the given indices, in
/// their order.
pub open spec fn values_in_order(definitions: Seq<DefinitionV>, order: Seq<usize>) -> Seq<
    Seq<char>,
>
    decreases order.len(),
{
    if order.len() == 0 {
        Seq::empty()
    } else {
        let rest = values_in_order(definitions, order.drop_last());
        let name = global_name(definitions[order.last() as int]);
        if is_value_name(definitions, name) {
            rest.push(name)
        } else {
            rest
        }
    }
}

/// The order in which the values of a module are initialized, or a failure
/// where values depend on each other in a circle.
pub open spec fn initializer_order(m: ModuleV) -> Result<Seq<Seq<char>>, ()> {
    match topological_sort(
        m.definitions.len() as usize,
        value_dependency_edges(m.definitions, m.definitions.len() as int),
    ) {
        Some(order) => Ok(values_in_order(m.definitions, order)),
        None => Err(()),
    }
}

fn add_value_edges_to(module: &Module, i: usize, edges: &mut Vec<(usize, usize)>)
    requires
        i < module.definitions@.len(),
        forall|e: int|
            0 <= e < old(edges)@.len() ==> (#[trigger] old(edges)@[e]).0 < module.definitions@.len()
                && old(edges)@[e].1 < module.definitions@.len(),
    ensures
        final(edges)@ == old(edges)@ + value_edges_to(
            module@.definitions,
            global_name(module@.definitions[i as int]),
            dependencies(module@.definitions[i as int]),
        ),
        forall|e: int|
            0 <= e < final(edges)@.len() ==> (#[trigger] final(edges)@[e]).0
                < module.definitions@.len() && final(edges)@[e].1 < module.definitions@.len(),
{
    let ghost defs = module@.definitions;
    let n = module.definitions.len();
    assert(defs.len() == n);
    let definition = &module.definitions[i];
    let name = name_of(definition);
    let no_names: Vec<String> = Vec::new();
    assert(names(no_names@) =~= Seq::<Seq<char>>::empty());
    let variables = definition.find_variables(&no_names);
    let ghost deps = dependencies(defs[i as int]);
    assert(names(variables@) == deps) by {
        reveal(dependencies);
    }
    let target = find_definition(&module.definitions, name);
    proof {
        lemma_definition_index(defs, name@);
        assert(global_name(defs[i as int]) == name@);
    }
    let ghost base = edges@;
    assert(deps.subrange(0, 0) =~= Seq::<Seq<char>>::empty());
    for k in 0..variables.len()
        invariant
            n == module.definitions@.len(),
            defs == module@.definitions,
            defs == view_definitions(module.definitions@),
            deps == names(variables@),
            deps == dependencies(defs[i as int]),
            i < n,
            defs.len() == n,
            name@ == global_name(defs[i as int]),
            target == definition_index(defs, name@),
            target matches Some(t) && t < n,
            edges@ == base + value_edges_to(defs, name@, deps.subrange(0, k as int)),
            forall|e: int| 0 <= e < edges@.len() ==> (#[trigger] edges@[e]).0 < n && edges@[e].1 < n,
    {
        assert(deps.subrange(0, k + 1).drop_last() =~= deps.subrange(0, k as int));
        assert(deps[k as int] == variables@[k as int]@);
        if is_value_name_exec(&module.definitions, &variables[k]) {
            let source = find_definition(&module.definitions, &variables[k]);
            proof {
                lemma_definition_index(defs, deps[k as int]);
            }
            match source {
                Some(j) => {
                    edges.push((j, target.unwrap()));
                    assert(edges@ =~= base + value_edges_to(defs, name@, deps.subrange(0, k + 1)));
                },
                None => {
                    assert(edges@ =~= base + value_edges_to(defs, name@, deps.subrange(0, k + 1)));
                },
            }
        } else {
            assert(edges@ =~= base + value_edges_to(defs, name@, deps.subrange(0, k + 1)));
        }
    }
    assert(deps.subrange(0, variables@.len() as int) =~= deps);
}

/// The edges of the graph whose topological order the sorter takes: from
/// each value to every definition that refers to it.
fn value_dependency_graph(module: &Module) -> (r: Vec<(usize, usize)>)
    ensures
        r@ == value_dependency_edges(module@.definitions, module@.definitions.len() as int),
        forall|e: int|
            0 <= e < r@.len() ==> (#[trigger] r@[e]).0 < module.definitions@.len() && r@[e].1
                < module.definitions@.len(),
{
    let ghost defs = module@.definitions;
    let n = module.definitions.len();
    assert(defs.len() == n);
    let mut edges: Vec<(usize, usize)> = Vec::new();
    for i in 0..n
        invariant
            n == module.definitions@.len(),
            defs.len() == n,
            defs == module@.definitions,
            edges@ == value_dependency_edges(defs, i as int),
            forall|k: int| 0 <= k < edges@.len() ==> (#[trigger] edges@[k]).0 < n && edges@[k].1 < n,
    {
        add_value_edges_to(module, i, &mut edges);
    }
    edges
}

/// The names of the values among the definitions of the module at the given
/// indices, in their order.
pub fn initializers_in_order(module: &Module, order: &Vec<usize>) -> (r: Vec<String>)
    requires
        forall|i: int| 0 <= i < order@.len() ==> #[trigger] order@[i] < module.definitions@.len(),
    ensures
        names(r@) == values_in_order(module@.definitions, order@),
{
    let ghost defs = module@.definitions;
    let mut r: Vec<String> = Vec::new();
    assert(order@.subrange(0, 0) =~= Seq::<usize>::empty());
    for i in 0..order.len()
        invariant
            defs == module@.definitions,
            defs == view_definitions(module.definitions@),
            forall|k: int| 0 <= k < order@.len() ==> #[trigger] order@[k] < module.definitions@.len(),
            names(r@) == values_in_order(defs, order@.subrange(0, i as int)),
    {
        assert(order@.subrange(0, i + 1).drop_last() =~= order@.subrange(0, i as int));
        let node = order[i];
        let name = name_of(&module.definitions[node]);
        assert(name@ == global_name(defs[node as int]));
        if is_value_name_exec(&module.definitions, name) {
            let ghost before = names(r@);
            r.push(name.clone());
            assert(names(r@) =~= before.push(name@));
        }
    }
    assert(order@.subrange(0, order@.len() as int) =~= order@);
    r
}

proof fn lemma_value_edges_to(
    definitions: Seq<DefinitionV>,
    target: Seq<char>,
    names_: Seq<Seq<char>>,
    x: Seq<char>,
)
    requires
        definitions.len() <= usize::MAX,
        names_.contains(x),
        is_value_name(definitions, x),
    ensures
        value_edges_to(definitions, target, names_).contains(
            (
                definition_index(definitions, x).unwrap(),
                definition_index(definitions, target).unwrap(),
            ),
        ),
    decreases names_.len(),
{
    let e = (
        definition_index(definitions, x).unwrap(),
        definition_index(definitions, target).unwrap(),
    );
    let p = names_.drop_last();
    let rest = value_edges_to(definitions, target, p);
    let here = value_edges_to(definitions, target, names_);
    lemma_definition_index(definitions, x);
    if names_.last() == x {
        assert(here[rest.len() as int] == e);
    } else {
        let i = choose|i: int| 0 <= i < names_.len() && names_[i] == x;
        assert(p[i] == x);
        lemma_value_edges_to(definitions, target, p, x);
        let j = choose|j: int| 0 <= j < rest.len() && rest[j] == e;
        assert(here[j] == e);
    }
}

proof fn lemma_value_dependency_edges_grow(definitions: Seq<DefinitionV>, a: int, b: int, e: (usize, usize))
    requires
        0 <= a <= b <= definitions.len(),
        value_dependency_edges(definitions, a).contains(e),
    ensures
        value_dependency_edges(definitions, b).contains(e),
    decreases b - a,
{
    if a < b {
        lemma_value_dependency_edges_grow(definitions, a, b - 1, e);
        let before = value_dependency_edges(definitions, b - 1);
        let j = choose|j: int| 0 <= j < before.len() && before[j] == e;
        assert(value_dependency_edges(definitions, b)[j] == e);
    }
}

/// A definition that refers to a value is reached by an edge from the value.
proof fn lemma_value_dependency_edge(definitions: Seq<DefinitionV>, k: int, x: Seq<char>)
    requires
        definitions.len() <= usize::MAX,
        0 <= k < definitions.len(),
        is_value_name(definitions, x),
        dependencies(definitions[k]).contains(x),
    ensures
        value_dependency_edges(definitions, definitions.len() as int).contains(
            (
                definition_index(definitions, x).unwrap(),
                definition_index(definitions, global_name(definitions[k])).unwrap(),
            ),
        ),
{
    let e = (
        definition_index(definitions, x).unwrap(),
        definition_index(definitions, global_name(definitions[k])).unwrap(),
    );
    let before = value_dependency_edges(definitions, k);
    let added = value_edges_to(definitions, global_name(definitions[k]), dependencies(definitions[k]));
    lemma_value_edges_to(definitions, global_name(definitions[k]), dependencies(definitions[k]), x);
    let j = choose|j: int| 0 <= j < added.len() && added[j] == e;
    assert(value_dependency_edges(definitions, k + 1)[before.len() + j] == e);
    lemma_value_dependency_edges_grow(definitions, k + 1, definitions.len() as int, e);
}

proof fn lemma_values_in_order_contains(definitions: Seq<DefinitionV>, order: Seq<usize>, p: int)
    requires
        0 <= p < order.len(),
        is_value_name(definitions, global_name(definitions[order[p] as int])),
    ensures
        values_in_order(definitions, order).contains(global_name(definitions[order[p] as int])),
    decreases order.len(),
{
    let name = global_name(definitions[order[p] as int]);
    let rest = values_in_order(definitions, order.drop_last());
    if p == order.len() - 1 {
        assert(values_in_order(definitions, order)[rest.len() as int] == name);
    } else {
        assert(order.drop_last()[p] == order[p]);
        lemma_values_in_order_contains(definitions, order.drop_last(), p);
        let i = choose|i: int| 0 <= i < rest.len() && rest[i] == name;
        assert(values_in_order(definitions, order)[i] == name);
    }
}

proof fn lemma_values_in_order_values(definitions: Seq<DefinitionV>, order: Seq<usize>)
    ensures
        forall|x: Seq<char>|
            #[trigger] values_in_order(definitions, order).contains(x) ==> is_value_name(
                definitions,
                x,
            ),
    decreases order.len(),
{
    if order.len() > 0 {
        lemma_values_in_order_values(definitions, order.drop_last());
        let rest = values_in_order(definitions, order.drop_last());
        let all = values_in_order(definitions, order);
        assert forall|x: Seq<char>| #[trigger] all.contains(x) implies is_value_name(definitions, x) by {
            let i = choose|i: int| 0 <= i < all.len() && all[i] == x;
            if i < rest.len() {
                assert(rest[i] == x);
                assert(rest.contains(x));
            }
        }
    }
}

/// Distinct nodes of definitions with distinct names give distinct names.
proof fn lemma_values_in_order_no_duplicates(definitions: Seq<DefinitionV>, order: Seq<usize>)
    requires
        distinct_names(definitions),
        order.no_duplicates(),
        forall|i: int| 0 <= i < order.len() ==> #[trigger] order[i] < definitions.len(),
    ensures
        values_in_order(definitions, order).no_duplicates(),
        forall|k: int|
            0 <= k < values_in_order(definitions, order).len() ==> exists|p: int|
                0 <= p < order.len() && #[trigger] values_in_order(definitions, order)[k]
                    == global_name(definitions[order[p] as int]),
    decreases order.len(),
{
    if order.len() > 0 {
        let q = order.drop_last();
        assert forall|i: int| 0 <= i < q.len() implies #[trigger] q[i] < definitions.len() by {
            assert(q[i] == order[i]);
        }
        assert(q.no_duplicates()) by {
            assert forall|i: int, j: int| 0 <= i < q.len() && 0 <= j < q.len() && i != j implies q[i]
                != q[j] by {
                assert(q[i] == order[i] && q[j] == order[j]);
            }
        }
        lemma_values_in_order_no_duplicates(definitions, q);
        let r = values_in_order(definitions, q);
        let all = values_in_order(definitions, order);
        let last = order.len() - 1;
        let x = global_name(definitions[order[last] as int]);
        assert forall|k: int| 0 <= k < r.len() implies exists|p: int|
            0 <= p < order.len() && #[trigger] r[k] == global_name(definitions[order[p] as int]) by {
            let p = choose|p: int| 0 <= p < q.len() && r[k] == global_name(definitions[q[p] as int]);
            assert(q[p] == order[p]);
        }
        if is_value_name(definitions, x) {
            assert(all == r.push(x));
            assert forall|k: int| 0 <= k < r.len() implies #[trigger] r[k] != x by {
                let p = choose|p: int| 0 <= p < q.len() && r[k] == global_name(definitions[q[p] as int]);
                assert(q[p] == order[p]);
                assert(order[p] != order[last]);
                assert(order[p] < definitions.len() && order[last] < definitions.len());
            }
            assert forall|k: int| 0 <= k < all.len() implies exists|p: int|
                0 <= p < order.len() && #[trigger] all[k] == global_name(definitions[order[p] as int]) by {
                if k < r.len() {
                    assert(all[k] == r[k]);
                } else {
                    assert(all[k] == global_name(definitions[order[last] as int]));
                }
            }
            assert forall|i: int, j: int| 0 <= i < all.len() && 0 <= j < all.len() && i != j implies all[i]
                != all[j] by {
                if i < r.len() && j < r.len() {
                    assert(all[i] == r[i] && all[j] == r[j]);
                } else if i < r.len() {
                    assert(all[i] == r[i]);
                } else {
                    assert(all[j] == r[j]);
                }
            }
        }
    }
}

/// Values at earlier indices of the order come earlier among the names.
proof fn lemma_values_in_order_precedes(definitions: Seq<DefinitionV>, order: Seq<usize>, p: int, q: int)
    requires
        0 <= p < q < order.len(),
        is_value_name(definitions, global_name(definitions[order[p] as int])),
        is_value_name(definitions, global_name(definitions[order[q] as int])),
    ensures
        precedes(
            values_in_order(definitions, order),
            global_name(definitions[order[p] as int]),
            global_name(definitions[order[q] as int]),
        ),
    decreases order.len(),
{
    let x = global_name(definitions[order[p] as int]);
    let y = global_name(definitions[order[q] as int]);
    let rest = values_in_order(definitions, order.drop_last());
    let all = values_in_order(definitions, order);
    assert(order.drop_last()[p] == order[p]);
    if q == order.len() - 1 {
        lemma_values_in_order_contains(definitions, order.drop_last(), p);
        let i = choose|i: int| 0 <= i < rest.len() && rest[i] == x;
        assert(all[i] == x && all[rest.len() as int] == y);
    } else {
        assert(order.drop_last()[q] == order[q]);
        lemma_values_in_order_precedes(definitions, order.drop_last(), p, q);
        let (i, j) = choose|i: int, j: int| 0 <= i < j < rest.len() && rest[i] == x && rest[j] == y;
        assert(all[i] == x && all[j] == y);
    }
}

pub struct InitializerSorter;

impl InitializerSorter {
    /// The values of the module in the order of their initialization: a
    /// topological order of the graph from each value to the definitions
    /// that refer to it. Fails where values depend on each other in a circle.
    pub fn sort(module: &Module) -> (r: Result<Vec<String>, CompileError>)
        ensures
            match (r, initializer_order(module@)) {
                (Ok(order), Ok(s)) => names(order@) == s,
                (Err(e), Err(_)) => e == CompileError::CircularInitialization,
                _ => false,
            },
            r matches Ok(order) ==> lists_values(module@, names(order@)),
            distinct_names(module@.definitions) ==> (r matches Ok(order) ==> names(
                order@,
            ).no_duplicates()),
            r is Err <==> has_cycle(
                value_dependency_edges(module@.definitions, module@.definitions.len() as int),
            ),
            r matches Ok(order) ==> forall|x: Seq<char>, k: int|
                #![trigger dependencies(module@.definitions[k]).contains(x)]
                0 <= k < module@.definitions.len() && is_value_name(module@.definitions, x)
                    && is_value_name(module@.definitions, global_name(module@.definitions[k]))
                    && dependencies(module@.definitions[k]).contains(x) ==> precedes(
                    names(order@),
                    x,
                    global_name(module@.definitions[k]),
                ),
    {
        let edges = value_dependency_graph(module);
        match topological_order(module.definitions.len(), &edges) {
            Some(order) => {
                proof {
                    let o = order@;
                    assert forall|i: int| 0 <= i < o.len() implies #[trigger] o[i]
                        < module.definitions@.len() by {}
                }
                let r = initializers_in_order(module, &order);
                proof {
                    let defs = module@.definitions;
                    let n = defs.len();
                    lemma_values_in_order_values(defs, order@);
                    if distinct_names(defs) {
                        lemma_values_in_order_no_duplicates(defs, order@);
                    }
                    assert forall|x: Seq<char>| #[trigger] names(r@).contains(x) <==> is_value_name(
                        defs,
                        x,
                    ) by {
                        if is_value_name(defs, x) {
                            lemma_definition_index(defs, x);
                            let ix = definition_index(defs, x).unwrap();
                            assert(order@.contains(ix));
                            let p = choose|p: int| 0 <= p < order@.len() && order@[p] == ix;
                            lemma_values_in_order_contains(defs, order@, p);
                        }
                    }
                    assert forall|x: Seq<char>, k: int|
                        #![trigger dependencies(defs[k]).contains(x)]
                        0 <= k < n && is_value_name(defs, x) && is_value_name(defs, global_name(defs[k]))
                            && dependencies(defs[k]).contains(x) implies precedes(
                        names(r@),
                        x,
                        global_name(defs[k]),
                    ) by {
                        lemma_value_dependency_edge(defs, k, x);
                        let y = global_name(defs[k]);
                        lemma_definition_index(defs, x);
                        lemma_definition_index(defs, y);
                        let ix = definition_index(defs, x).unwrap();
                        let iy = definition_index(defs, y).unwrap();
                        let o = order@;
                        assert(o.contains(ix));
                        assert(o.contains(iy));
                        let p = choose|p: int| 0 <= p < o.len() && o[p] == ix;
                        let q = choose|q: int| 0 <= q < o.len() && o[q] == iy;
                        assert(value_dependency_edges(defs, n as int).contains((o[p], o[q])));
                        lemma_values_in_order_precedes(defs, o, p, q);
                    }
                }
                Ok(r)
            },
            None => Err(CompileError::CircularInitialization),
        }
    }
}

} // verus!
