//! The order in which global values are initialized.
use crate::analysis::error::AnalysisError;
use crate::analysis::type_check::global_name;
use crate::free_variables::{distinct, global_occurrences, lemma_extend_distinct};
use crate::ir::{names, view_definitions, Definition, DefinitionV, Module, ModuleV};
use vstd::prelude::*;

verus! {

broadcast use vstd::std_specs::vec::group_vec_axioms;

// ---------------------------------------------------------------------------
// Graphs

pub type Edges = Seq<(usize, usize)>;

pub open spec fn is_path(edges: Edges, p: Seq<usize>) -> bool {
    &&& p.len() >= 1
    &&& forall|k: int| 0 <= k < p.len() - 1 ==> #[trigger] edges.contains((p[k], p[k + 1]))
}

/// There is a path, possibly empty, from `a` to `b`.
pub open spec fn reachable(edges: Edges, a: usize, b: usize) -> bool {
    exists|p: Seq<usize>| #[trigger] is_path(edges, p) && p[0] == a && p.last() == b
}

pub open spec fn in_some_component(components: Seq<Seq<usize>>, x: usize) -> bool {
    exists|i: int| 0 <= i < components.len() && #[trigger] components[i].contains(x)
}

/// What the strongly connected components of a graph of `node_count` nodes
/// are, listed in postorder: every node lies in exactly one component, the
/// nodes of a component are exactly those that reach each other, and an edge
/// never leads to a later component.
pub open spec fn are_components(node_count: usize, edges: Edges, components: Seq<Seq<usize>>) -> bool {
    &&& forall|i: int, j: int|
        0 <= i < components.len() && 0 <= j < components[i].len() ==> #[trigger] components[i][j]
            < node_count
    &&& forall|i: int| 0 <= i < components.len() ==> #[trigger] components[i].len() > 0
    &&& forall|i: int| 0 <= i < components.len() ==> #[trigger] components[i].no_duplicates()
    &&& forall|x: usize| x < node_count ==> #[trigger] in_some_component(components, x)
    &&& forall|i: int, k: int, x: usize|
        0 <= i < components.len() && 0 <= k < components.len() && #[trigger] components[i].contains(x)
            && #[trigger] components[k].contains(x) ==> i == k
    &&& forall|i: int, x: usize, y: usize|
        0 <= i < components.len() && #[trigger] components[i].contains(x)
            && #[trigger] components[i].contains(y) ==> reachable(edges, x, y)
    &&& forall|i: int, k: int, x: usize, y: usize|
        0 <= i < components.len() && 0 <= k < components.len() && #[trigger] components[i].contains(x)
            && #[trigger] components[k].contains(y) && reachable(edges, x, y) && reachable(
            edges,
            y,
            x,
        ) ==> i == k
    &&& forall|i: int, k: int, e: (usize, usize)|
        0 <= i < components.len() && 0 <= k < components.len() && #[trigger] edges.contains(e)
            && #[trigger] components[i].contains(e.0) && #[trigger] components[k].contains(e.1)
            ==> k <= i
}

/// The components that `petgraph`'s Kosaraju algorithm finds.
pub uninterp spec fn kosaraju_components(node_count: usize, edges: Seq<(usize, usize)>) -> Seq<
    Seq<usize>,
>;

pub open spec fn view_components(components: Seq<Vec<usize>>) -> Seq<Seq<usize>> {
    components.map_values(|c: Vec<usize>| c@)
}

/// The strongly connected components of the graph of `node_count` nodes and
/// the given edges, computed by `petgraph::algo::kosaraju_scc` on a
/// `petgraph::graph::Graph` built from them. As its documentation states,
/// they are the strongly connected components in postorder (reverse
/// topological order); which of the valid orders comes out is left to the
/// algorithm, and is named by `kosaraju_components`.
#[verifier::external_body]
fn strongly_connected_components(node_count: usize, edges: &Vec<(usize, usize)>) -> (r: Vec<
    Vec<usize>,
>)
    requires
        forall|k: int|
            0 <= k < edges@.len() ==> (#[trigger] edges@[k]).0 < node_count && edges@[k].1
                < node_count,
    ensures
        view_components(r@) == kosaraju_components(node_count, edges@),
        are_components(node_count, edges@, view_components(r@)),
{
    let mut graph = petgraph::graph::Graph::<(), (), petgraph::Directed, usize>::with_capacity(
        node_count,
        edges.len(),
    );
    for _ in 0..node_count {
        graph.add_node(());
    }
    for (from, to) in edges {
        graph.add_edge(petgraph::graph::NodeIndex::new(*from), petgraph::graph::NodeIndex::new(*to), ());
    }
    petgraph::algo::kosaraju_scc(&graph).into_iter().map(
        |c| c.into_iter().map(|i| i.index()).collect(),
    ).collect()
}

// ---------------------------------------------------------------------------
// The dependency graph of a module's definitions

/// The index of the last definition of a name.
pub open spec fn definition_index(definitions: Seq<DefinitionV>, name: Seq<char>) -> Option<usize>
    decreases definitions.len(),
{
    if definitions.len() == 0 {
        None
    } else if global_name(definitions.last()) == name {
        Some((definitions.len() - 1) as usize)
    } else {
        definition_index(definitions.drop_last(), name)
    }
}

/// The globals that a definition refers to, each once.
#[verifier::opaque]
pub open spec fn dependencies(d: DefinitionV) -> Seq<Seq<char>> {
    distinct(global_occurrences(d, Seq::empty()))
}

/// A definition refers to its own name.
pub open spec fn self_referencing(definitions: Seq<DefinitionV>) -> bool {
    exists|i: int|
        0 <= i < definitions.len() && #[trigger] dependencies(definitions[i]).contains(
            global_name(definitions[i]),
        )
}

/// The edges from the definitions of the names in `names_` to the
/// definition of `target`.
pub open spec fn edges_to(definitions: Seq<DefinitionV>, target: Seq<char>, names_: Seq<Seq<char>>) -> Edges
    decreases names_.len(),
{
    if names_.len() == 0 {
        Seq::empty()
    } else {
        edges_to(definitions, target, names_.drop_last()) + match definition_index(
            definitions,
            names_.last(),
        ) {
            Some(j) => seq![(j, definition_index(definitions, target).unwrap())],
            None => Seq::empty(),
        }
    }
}

/// The edges of the dependency graph contributed by the first `k`
/// definitions: from each definition referred to, to the referring one.
pub open spec fn dependency_edges(definitions: Seq<DefinitionV>, k: int) -> Edges
    decreases k,
{
    if k <= 0 {
        Seq::empty()
    } else {
        dependency_edges(definitions, k - 1) + edges_to(
            definitions,
            global_name(definitions[k - 1]),
            dependencies(definitions[k - 1]),
        )
    }
}

pub open spec fn is_value(d: DefinitionV) -> bool {
    d is Value
}

/// A name of a value definition.
pub open spec fn is_value_name(definitions: Seq<DefinitionV>, name: Seq<char>) -> bool {
    exists|i: int| 0 <= i < definitions.len() && is_value(definitions[i]) && #[trigger] global_name(
        definitions[i],
    ) == name
}

/// A component holds a value definition.
pub open spec fn holds_value(definitions: Seq<DefinitionV>, component: Seq<usize>) -> bool {
    exists|k: int|
        0 <= k < component.len() && is_value_name(
            definitions,
            global_name(#[trigger] definitions[component[k] as int]),
        )
}

/// The initialization order read off the components: the components that
/// hold a value, last component first; each must be that value alone.
pub open spec fn order_of_components(
    definitions: Seq<DefinitionV>,
    components: Seq<Seq<usize>>,
) -> Result<Seq<Seq<char>>, ()>
    decreases components.len(),
{
    if components.len() == 0 {
        Ok(Seq::empty())
    } else {
        let c = components[0];
        match order_of_components(definitions, components.drop_first()) {
            Err(_) => Err(()),
            Ok(rest) => if !holds_value(definitions, c) {
                Ok(rest)
            } else if c.len() > 1 {
                Err(())
            } else {
                Ok(rest.push(global_name(definitions[c[0] as int])))
            },
        }
    }
}

/// The order in which the values of a module are initialized: a value comes
/// after the values it depends on, directly or through functions.
pub open spec fn initialization_order(m: ModuleV) -> Result<Seq<Seq<char>>, ()> {
    if self_referencing(m.definitions) {
        Err(())
    } else {
        order_of_components(
            m.definitions,
            kosaraju_components(
                m.definitions.len() as usize,
                dependency_edges(m.definitions, m.definitions.len() as int),
            ),
        )
    }
}


pub proof fn lemma_definition_index(definitions: Seq<DefinitionV>, name: Seq<char>)
    requires
        definitions.len() <= usize::MAX,
    ensures
        definition_index(definitions, name) matches Some(j) ==> j < definitions.len()
            && global_name(definitions[j as int]) == name,
        (exists|i: int| 0 <= i < definitions.len() && global_name(definitions[i]) == name)
            ==> definition_index(definitions, name) is Some,
        definition_index(definitions, name) is None ==> forall|i: int|
            0 <= i < definitions.len() ==> global_name(#[trigger] definitions[i]) != name,
    decreases definitions.len(),
{
    if definitions.len() > 0 {
        lemma_definition_index(definitions.drop_last(), name);
        if exists|i: int| 0 <= i < definitions.len() && global_name(definitions[i]) == name {
            let i = choose|i: int| 0 <= i < definitions.len() && global_name(definitions[i]) == name;
            if i < definitions.len() - 1 {
                assert(global_name(definitions.drop_last()[i]) == name);
            }
        }
        if definition_index(definitions, name) is None {
            assert forall|i: int| 0 <= i < definitions.len() implies global_name(
                #[trigger] definitions[i],
            ) != name by {
                if i < definitions.len() - 1 {
                    assert(definitions.drop_last()[i] == definitions[i]);
                }
            }
        }
    }
}

pub(crate) fn name_of(definition: &Definition) -> (r: &String)
    ensures
        r@ == global_name(definition@),
{
    match definition {
        Definition::FunctionDefinition(f) => &f.name,
        Definition::ValueDefinition(v) => &v.name,
    }
}

pub(crate) fn find_definition(definitions: &Vec<Definition>, name: &String) -> (r: Option<usize>)
    ensures
        r == definition_index(view_definitions(definitions@), name@),
{
    let ghost defs = view_definitions(definitions@);
    let mut i = definitions.len();
    assert(defs.subrange(0, i as int) =~= defs);
    while i > 0
        invariant
            i <= definitions@.len(),
            defs == view_definitions(definitions@),
            definition_index(defs, name@) == definition_index(defs.subrange(0, i as int), name@),
        decreases i,
    {
        assert(defs.subrange(0, i as int).drop_last() =~= defs.subrange(0, i - 1));
        if *name_of(&definitions[i - 1]) == *name {
            return Some(i - 1);
        }
        i = i - 1;
    }
    None
}

pub(crate) fn is_value_name_exec(definitions: &Vec<Definition>, name: &String) -> (r: bool)
    ensures
        r == is_value_name(view_definitions(definitions@), name@),
{
    let ghost defs = view_definitions(definitions@);
    for i in 0..definitions.len()
        invariant
            defs == view_definitions(definitions@),
            forall|j: int|
                0 <= j < i ==> !(is_value(defs[j]) && #[trigger] global_name(defs[j]) == name@),
    {
        match &definitions[i] {
            Definition::ValueDefinition(v) => {
                if v.name == *name {
                    assert(global_name(defs[i as int]) == name@);
                    return true;
                }
            },
            _ => {},
        }
    }
    false
}

/// A failure on a suffix of the components is a failure on all of them.
proof fn lemma_order_suffix(definitions: Seq<DefinitionV>, components: Seq<Seq<usize>>, i: int)
    requires
        0 <= i <= components.len(),
        order_of_components(definitions, components.subrange(i, components.len() as int)) is Err,
    ensures
        order_of_components(definitions, components) is Err,
    decreases i,
{
    if i > 0 {
        let s = components.subrange(i - 1, components.len() as int);
        assert(s.drop_first() =~= components.subrange(i, components.len() as int));
        lemma_order_suffix(definitions, components, i - 1);
    } else {
        assert(components.subrange(0, components.len() as int) =~= components);
    }
}

fn holds_value_exec(module: &Module, component: &Vec<usize>) -> (r: bool)
    requires
        forall|b: int| 0 <= b < component@.len() ==> #[trigger] component@[b] < module.definitions@.len(),
    ensures
        r == holds_value(module@.definitions, component@),
{
    let ghost defs = module@.definitions;
    for k in 0..component.len()
        invariant
            forall|b: int| 0 <= b < component@.len() ==> #[trigger] component@[b] < module.definitions@.len(),
            defs == module@.definitions,
            forall|b: int|
                0 <= b < k ==> !is_value_name(defs, global_name(#[trigger] defs[component@[b] as int])),
    {
        let node = component[k];
        if is_value_name_exec(&module.definitions, name_of(&module.definitions[node])) {
            assert(is_value_name(defs, global_name(defs[component@[k as int] as int])));
            return true;
        }
    }
    false
}

/// The initialization order read off the strongly connected components of the
/// dependency graph of a module's definitions (nodes are indices of
/// definitions).
pub fn order_from_components(module: &Module, components: &Vec<Vec<usize>>) -> (r: Result<
    Vec<String>,
    AnalysisError,
>)
    requires
        forall|i: int, j: int|
            0 <= i < components@.len() && 0 <= j < components@[i]@.len() ==> #[trigger] components@[i]@[j]
                < module.definitions@.len(),
    ensures
        match (r, order_of_components(module@.definitions, view_components(components@))) {
            (Ok(order), Ok(s)) => names(order@) == s,
            (Err(e), Err(_)) => e == AnalysisError::CircularInitialization,
            _ => false,
        },
{
    let ghost defs = module@.definitions;
    let ghost comps = view_components(components@);
    let m = components.len();
    let mut order: Vec<String> = Vec::new();
    let mut i = m;
    assert(comps.subrange(m as int, m as int) =~= Seq::<Seq<usize>>::empty());
    assert(names(order@) =~= Seq::<Seq<char>>::empty());
    while i > 0
        invariant
            i <= m,
            m == components@.len(),
            comps == view_components(components@),
            defs == module@.definitions,
            defs == view_definitions(module.definitions@),
            forall|a: int, b: int|
                0 <= a < components@.len() && 0 <= b < components@[a]@.len() ==> #[trigger] components@[a]@[b]
                    < module.definitions@.len(),
            order_of_components(defs, comps.subrange(i as int, m as int)) == Ok::<
                Seq<Seq<char>>,
                (),
            >(names(order@)),
        decreases i,
    {
        i = i - 1;
        let component = &components[i];
        let ghost rest = comps.subrange(i as int, m as int);
        assert(rest[0] == component@);
        assert(rest.drop_first() =~= comps.subrange(i + 1, m as int));
        assert(component@ == comps[i as int]);
        let holds = holds_value_exec(module, component);
        if holds {
            if component.len() > 1 {
                proof {
                    lemma_order_suffix(defs, comps, i as int);
                }
                return Err(AnalysisError::CircularInitialization);
            }
            let ghost before = names(order@);
            order.push(name_of(&module.definitions[component[0]]).clone());
            assert(names(order@) =~= before.push(global_name(defs[component@[0] as int])));
        }
    }
    assert(comps.subrange(0, m as int) =~= comps);
    Ok(order)
}

fn add_edges_to(
    module: &Module,
    i: usize,
    edges: &mut Vec<(usize, usize)>,
) -> (r: bool)
    requires
        i < module.definitions@.len(),
        forall|e: int|
            0 <= e < old(edges)@.len() ==> (#[trigger] old(edges)@[e]).0 < module.definitions@.len()
                && old(edges)@[e].1 < module.definitions@.len(),
    ensures
        r == !dependencies(module@.definitions[i as int]).contains(
            global_name(module@.definitions[i as int]),
        ),
        r ==> final(edges)@ == old(edges)@ + edges_to(
            module@.definitions,
            global_name(module@.definitions[i as int]),
            dependencies(module@.definitions[i as int]),
        ),
        forall|e: int|
            0 <= e < final(edges)@.len() ==> (#[trigger] final(edges)@[e]).0
                < module.definitions@.len() && final(edges)@[e].1 < module.definitions@.len(),
{
    let ghost defs = module@.definitions;
    let n = module.definitions.len();
    assert(defs.len() == n);
    let definition = &module.definitions[i];
    let name = name_of(definition);
    let no_names: Vec<String> = Vec::new();
    assert(names(no_names@) =~= Seq::<Seq<char>>::empty());
    let variables = definition.find_variables(&no_names);
    let ghost deps = dependencies(defs[i as int]);
    assert(names(variables@) == deps) by {
        reveal(dependencies);
    }
    let target = find_definition(&module.definitions, name);
    proof {
        lemma_definition_index(defs, name@);
        assert(global_name(defs[i as int]) == name@);
    }
    let ghost base = edges@;
    assert(deps.subrange(0, 0) =~= Seq::<Seq<char>>::empty());
    for k in 0..variables.len()
        invariant
            n == module.definitions@.len(),
            defs == module@.definitions,
            defs == view_definitions(module.definitions@),
            deps == names(variables@),
            deps == dependencies(defs[i as int]),
            i < n,
            defs.len() == n,
            name@ == global_name(defs[i as int]),
            target == definition_index(defs, name@),
            target matches Some(t) && t < n,
            edges@ == base + edges_to(defs, name@, deps.subrange(0, k as int)),
            forall|e: int| 0 <= e < edges@.len() ==> (#[trigger] edges@[e]).0 < n && edges@[e].1 < n,
            forall|b: int| 0 <= b < k ==> deps[b] != name@,
    {
        assert(deps.subrange(0, k + 1).drop_last() =~= deps.subrange(0, k as int));
        assert(deps[k as int] == variables@[k as int]@);
        if variables[k] == *name {
            assert(deps[k as int] == name@);
            assert(deps.contains(name@));
            assert(dependencies(module@.definitions[i as int]).contains(
                global_name(module@.definitions[i as int]),
            ));
            return false;
        }
        let source = find_definition(&module.definitions, &variables[k]);
        proof {
            lemma_definition_index(defs, deps[k as int]);
        }
        match source {
            Some(j) => {
                edges.push((j, target.unwrap()));
                assert(edges@ =~= base + edges_to(defs, name@, deps.subrange(0, k + 1)));
            },
            None => {
                assert(edges@ =~= base + edges_to(defs, name@, deps.subrange(0, k + 1)));
            },
        }
    }
    assert(deps.subrange(0, variables@.len() as int) =~= deps);
    assert(!deps.contains(name@));
    true
}

/// The edges of the dependency graph of a module's definitions; fails when
/// a definition refers to itself.
fn dependency_graph(module: &Module) -> (r: Result<Vec<(usize, usize)>, AnalysisError>)
    ensures
        match r {
            Ok(edges) => !self_referencing(module@.definitions) && edges@ == dependency_edges(
                module@.definitions,
                module@.definitions.len() as int,
            ) && forall|e: int|
                0 <= e < edges@.len() ==> (#[trigger] edges@[e]).0 < module.definitions@.len()
                    && edges@[e].1 < module.definitions@.len(),
            Err(e) => self_referencing(module@.definitions) && e == AnalysisError::CircularInitialization,
        },
{
    let ghost defs = module@.definitions;
    let n = module.definitions.len();
    assert(defs.len() == n);
    let mut edges: Vec<(usize, usize)> = Vec::new();
    for i in 0..n
        invariant
            n == module.definitions@.len(),
            defs.len() == n,
            defs == module@.definitions,
            edges@ == dependency_edges(defs, i as int),
            forall|k: int| 0 <= k < edges@.len() ==> (#[trigger] edges@[k]).0 < n && edges@[k].1 < n,
            forall|j: int|
                0 <= j < i ==> !(#[trigger] dependencies(defs[j])).contains(global_name(defs[j])),
    {
        let ghost before = edges@;
        if !add_edges_to(module, i, &mut edges) {
            assert(dependencies(defs[i as int]).contains(global_name(defs[i as int])));
            return Err(AnalysisError::CircularInitialization);
        }
        assert(edges@ == dependency_edges(defs, i + 1));
    }
    assert(!self_referencing(defs));
    Ok(edges)
}

/// The order in which the values of a module are to be initialized: each
/// value after the values it depends on, directly or through functions.
/// Fails when a value depends on itself.
pub fn sort_global_variables(module: &Module) -> (r: Result<Vec<String>, AnalysisError>)
    ensures
        match (r, initialization_order(module@)) {
            (Ok(order), Ok(s)) => names(order@) == s,
            (Err(e), Err(_)) => e == AnalysisError::CircularInitialization,
            _ => false,
        },
        r matches Ok(order) ==> respects_dependencies(module@, names(order@)),
        r matches Ok(order) ==> lists_values(module@, names(order@)),
        distinct_names(module@.definitions) ==> (r matches Ok(order) ==> names(
            order@,
        ).no_duplicates()),
        r is Err <==> circular_initialization(module@),
{
    let edges = match dependency_graph(module) {
        Ok(edges) => edges,
        Err(e) => return Err(e),
    };
    let components = strongly_connected_components(module.definitions.len(), &edges);
    let ghost defs = module@.definitions;
    let ghost comps = view_components(components@);
    proof {
        assert forall|i: int, j: int|
            0 <= i < components@.len() && 0 <= j < components@[i]@.len() implies #[trigger] components@[i]@[j]
                < module.definitions@.len() by {
            assert(comps[i] == components@[i]@);
            assert(comps[i][j] < module.definitions@.len());
        }
    }
    let r = order_from_components(module, &components);
    proof {
        let edges_ = dependency_edges(defs, defs.len() as int);
        match order_of_components(defs, comps) {
            Ok(s) => {
                lemma_order_respects_dependencies(module@, comps, s);
                lemma_order_lists_values(module@, comps, s);
                if distinct_names(defs) {
                    lemma_order_no_duplicates(defs, comps);
                }
                if circular_initialization(module@) {
                    let (u, w) = choose|u: usize, w: usize|
                        u < defs.len() && w < defs.len() && u != w && is_value_name(
                            defs,
                            global_name(defs[u as int]),
                        ) && reachable(edges_, u, w) && reachable(edges_, w, u);
                    lemma_circle_fails(defs, edges_, comps, u, w);
                }
            },
            Err(_) => {
                lemma_failure_is_circle(module@, comps);
            },
        }
    }
    r
}

impl Module {
    /// The order in which the values of the module are to be initialized.
    pub fn sort_global_variables(&self) -> (r: Result<Vec<String>, AnalysisError>)
        ensures
            match (r, initialization_order(self@)) {
                (Ok(order), Ok(s)) => names(order@) == s,
                (Err(e), Err(_)) => e == AnalysisError::CircularInitialization,
                _ => false,
            },
            r matches Ok(order) ==> respects_dependencies(self@, names(order@)),
            r matches Ok(order) ==> lists_values(self@, names(order@)),
            distinct_names(self@.definitions) ==> (r matches Ok(order) ==> names(
                order@,
            ).no_duplicates()),
            r is Err <==> circular_initialization(self@),
    {
        sort_global_variables(self)
    }
}

/// No two definitions share a name.
pub open spec fn distinct_names(definitions: Seq<DefinitionV>) -> bool {
    forall|i: int, j: int|
        0 <= i < definitions.len() && 0 <= j < definitions.len() && i != j ==> global_name(
            #[trigger] definitions[i],
        ) != global_name(#[trigger] definitions[j])
}

/// `x` is the name of the first node of one of the components.
pub open spec fn names_a_component(
    definitions: Seq<DefinitionV>,
    components: Seq<Seq<usize>>,
    x: Seq<char>,
) -> bool {
    exists|a: int|
        0 <= a < components.len() && components[a].len() > 0 && x == global_name(
            definitions[(#[trigger] components[a])[0] as int],
        )
}

/// Where the order succeeds on components that share no node, of
/// definitions with distinct names, it names no value twice.
proof fn lemma_order_no_duplicates(definitions: Seq<DefinitionV>, components: Seq<Seq<usize>>)
    requires
        order_of_components(definitions, components) is Ok,
        distinct_names(definitions),
        forall|i: int, j: int|
            0 <= i < components.len() && 0 <= j < components[i].len() ==> #[trigger] components[i][j]
                < definitions.len(),
        forall|i: int, k: int, x: usize|
            0 <= i < components.len() && 0 <= k < components.len() && #[trigger] components[i].contains(x)
                && #[trigger] components[k].contains(x) ==> i == k,
    ensures
        order_of_components(definitions, components)->Ok_0.no_duplicates(),
        forall|k: int|
            0 <= k < order_of_components(definitions, components)->Ok_0.len() ==> names_a_component(
                definitions,
                components,
                #[trigger] order_of_components(definitions, components)->Ok_0[k],
            ),
    decreases components.len(),
{
    if components.len() > 0 {
        let tail = components.drop_first();
        assert forall|i: int, j: int|
            0 <= i < tail.len() && 0 <= j < tail[i].len() implies #[trigger] tail[i][j]
                < definitions.len() by {
            assert(tail[i] == components[i + 1]);
        }
        assert forall|i: int, k: int, x: usize|
            0 <= i < tail.len() && 0 <= k < tail.len() && #[trigger] tail[i].contains(x)
                && #[trigger] tail[k].contains(x) implies i == k by {
            assert(tail[i] == components[i + 1]);
            assert(tail[k] == components[k + 1]);
        }
        lemma_order_no_duplicates(definitions, tail);
        let r = order_of_components(definitions, tail)->Ok_0;
        let s = order_of_components(definitions, components)->Ok_0;
        assert forall|k: int| 0 <= k < r.len() implies names_a_component(
            definitions,
            components,
            #[trigger] r[k],
        ) by {
            assert(names_a_component(definitions, tail, r[k]));
            let a = choose|a: int|
                0 <= a < tail.len() && tail[a].len() > 0 && r[k] == global_name(
                    definitions[(#[trigger] tail[a])[0] as int],
                );
            assert(tail[a] == components[a + 1]);
        }
        let c = components[0];
        if holds_value(definitions, c) && c.len() <= 1 {
            let x = global_name(definitions[c[0] as int]);
            assert(s == r.push(x));
            assert forall|k: int| 0 <= k < r.len() implies #[trigger] r[k] != x by {
                assert(names_a_component(definitions, tail, r[k]));
                let a = choose|a: int|
                    0 <= a < tail.len() && tail[a].len() > 0 && r[k] == global_name(
                        definitions[(#[trigger] tail[a])[0] as int],
                    );
                assert(tail[a] == components[a + 1]);
                let u = components[a + 1][0];
                assert(components[a + 1].contains(u));
                assert(components[0].contains(c[0]));
                if u == c[0] {
                    assert(a + 1 == 0);
                }
                assert(u < definitions.len());
                assert(c[0] < definitions.len());
            }
            assert forall|k: int| 0 <= k < s.len() implies names_a_component(
                definitions,
                components,
                #[trigger] s[k],
            ) by {
                if k < r.len() {
                    assert(s[k] == r[k]);
                } else {
                    assert(components[0][0] == c[0]);
                }
            }
            assert forall|i: int, j: int| 0 <= i < s.len() && 0 <= j < s.len() && i != j implies s[i]
                != s[j] by {
                if i < r.len() && j < r.len() {
                    assert(s[i] == r[i] && s[j] == r[j]);
                } else if i < r.len() {
                    assert(s[i] == r[i]);
                } else {
                    assert(s[j] == r[j]);
                }
            }
        }
    }
}

/// `x` occurs in `s` before `y` does.
pub open spec fn precedes(s: Seq<Seq<char>>, x: Seq<char>, y: Seq<char>) -> bool {
    exists|i: int, j: int| 0 <= i < j < s.len() && s[i] == x && s[j] == y
}

/// Every value of the module comes in `order` after the values that it
/// depends on, directly or through other definitions.
pub open spec fn respects_dependencies(m: ModuleV, order: Seq<Seq<char>>) -> bool {
    let defs = m.definitions;
    forall|x: Seq<char>, y: Seq<char>|
        #![trigger is_value_name(defs, x), is_value_name(defs, y)]
        is_value_name(defs, x) && is_value_name(defs, y) && x != y && reachable(
            dependency_edges(defs, defs.len() as int),
            definition_index(defs, x).unwrap(),
            definition_index(defs, y).unwrap(),
        ) ==> precedes(order, x, y)
}

/// The names in `order` are exactly those of the values of the module.
pub open spec fn lists_values(m: ModuleV, order: Seq<Seq<char>>) -> bool {
    forall|x: Seq<char>| #[trigger] order.contains(x) <==> is_value_name(m.definitions, x)
}

/// The names that the order lists are names of values.
proof fn lemma_order_names_values(definitions: Seq<DefinitionV>, components: Seq<Seq<usize>>)
    requires
        order_of_components(definitions, components) is Ok,
        forall|i: int, j: int|
            0 <= i < components.len() && 0 <= j < components[i].len() ==> #[trigger] components[i][j]
                < definitions.len(),
    ensures
        forall|x: Seq<char>|
            #[trigger] order_of_components(definitions, components)->Ok_0.contains(x)
                ==> is_value_name(definitions, x),
    decreases components.len(),
{
    if components.len() > 0 {
        let tail = components.drop_first();
        assert forall|i: int, j: int|
            0 <= i < tail.len() && 0 <= j < tail[i].len() implies #[trigger] tail[i][j]
                < definitions.len() by {
            assert(tail[i] == components[i + 1]);
        }
        lemma_order_names_values(definitions, tail);
        let r = order_of_components(definitions, tail)->Ok_0;
        let s = order_of_components(definitions, components)->Ok_0;
        assert forall|x: Seq<char>| #[trigger] s.contains(x) implies is_value_name(definitions, x) by {
            let i = choose|i: int| 0 <= i < s.len() && s[i] == x;
            if i < r.len() {
                assert(r[i] == x);
                assert(r.contains(x));
            } else {
                let c = components[0];
                let k = choose|k: int|
                    0 <= k < c.len() && is_value_name(
                        definitions,
                        global_name(#[trigger] definitions[c[k] as int]),
                    );
                assert(c.len() == 1);
                assert(k == 0);
            }
        }
    }
}

proof fn lemma_order_lists_values(m: ModuleV, components: Seq<Seq<usize>>, s: Seq<Seq<char>>)
    requires
        m.definitions.len() <= usize::MAX,
        are_components(
            m.definitions.len() as usize,
            dependency_edges(m.definitions, m.definitions.len() as int),
            components,
        ),
        order_of_components(m.definitions, components) == Ok::<Seq<Seq<char>>, ()>(s),
    ensures
        lists_values(m, s),
{
    let defs = m.definitions;
    let n = defs.len() as usize;
    let edges = dependency_edges(defs, defs.len() as int);
    lemma_order_names_values(defs, components);
    assert forall|x: Seq<char>| #[trigger] s.contains(x) <==> is_value_name(defs, x) by {
        if is_value_name(defs, x) {
            lemma_definition_index(defs, x);
            let ix = definition_index(defs, x).unwrap();
            let a = lemma_component_of(n, edges, components, ix);
            lemma_holds_value(defs, components[a], ix);
            lemma_order_singletons(defs, components, a);
            assert(components[a][0] == ix);
        }
    }
}

/// A value depends on itself: its definition refers to its own name, or it
/// and another definition depend on each other.
pub open spec fn circular_initialization(m: ModuleV) -> bool {
    let defs = m.definitions;
    let edges = dependency_edges(defs, defs.len() as int);
    self_referencing(defs) || exists|u: usize, w: usize|
        u < defs.len() && w < defs.len() && u != w && is_value_name(
            defs,
            global_name(#[trigger] defs[u as int]),
        ) && #[trigger] reachable(edges, u, w) && reachable(edges, w, u)
}

/// Where the order succeeds, a component holding a value is that value
/// alone, and its name is in the order.
proof fn lemma_order_singletons(definitions: Seq<DefinitionV>, components: Seq<Seq<usize>>, a: int)
    requires
        order_of_components(definitions, components) is Ok,
        0 <= a < components.len(),
        holds_value(definitions, components[a]),
    ensures
        components[a].len() == 1,
        order_of_components(definitions, components)->Ok_0.contains(
            global_name(definitions[components[a][0] as int]),
        ),
    decreases components.len(),
{
    let rest = order_of_components(definitions, components.drop_first());
    let s = order_of_components(definitions, components)->Ok_0;
    if a == 0 {
        let r = rest->Ok_0;
        assert(s[r.len() as int] == global_name(definitions[components[0][0] as int]));
    } else {
        assert(components.drop_first()[a - 1] == components[a]);
        lemma_order_singletons(definitions, components.drop_first(), a - 1);
        let r = rest->Ok_0;
        let i = choose|i: int| 0 <= i < r.len() && r[i] == global_name(
            definitions[components[a][0] as int],
        );
        assert(s[i] == r[i]);
    }
}

/// Where the order succeeds, the value of a later component comes before the
/// value of an earlier one.
proof fn lemma_order_precedes(definitions: Seq<DefinitionV>, components: Seq<Seq<usize>>, a: int, b: int)
    requires
        order_of_components(definitions, components) is Ok,
        0 <= b < a < components.len(),
        holds_value(definitions, components[a]),
        holds_value(definitions, components[b]),
    ensures
        precedes(
            order_of_components(definitions, components)->Ok_0,
            global_name(definitions[components[a][0] as int]),
            global_name(definitions[components[b][0] as int]),
        ),
    decreases components.len(),
{
    let x = global_name(definitions[components[a][0] as int]);
    let y = global_name(definitions[components[b][0] as int]);
    let tail = components.drop_first();
    let r = order_of_components(definitions, tail)->Ok_0;
    let s = order_of_components(definitions, components)->Ok_0;
    assert(tail[a - 1] == components[a]);
    if b == 0 {
        lemma_order_singletons(definitions, tail, a - 1);
        let i = choose|i: int| 0 <= i < r.len() && r[i] == x;
        assert(s[i] == x && s[r.len() as int] == y);
    } else {
        assert(tail[b - 1] == components[b]);
        lemma_order_precedes(definitions, tail, a - 1, b - 1);
        let (i, j) = choose|i: int, j: int| 0 <= i < j < r.len() && r[i] == x && r[j] == y;
        assert(s[i] == x && s[j] == y);
    }
}

/// Where the order fails, a component holding a value has more than one
/// node.
proof fn lemma_order_failure(definitions: Seq<DefinitionV>, components: Seq<Seq<usize>>) -> (a: int)
    requires
        order_of_components(definitions, components) is Err,
    ensures
        0 <= a < components.len(),
        holds_value(definitions, components[a]),
        components[a].len() > 1,
    decreases components.len(),
{
    let tail = components.drop_first();
    if order_of_components(definitions, tail) is Err {
        let b = lemma_order_failure(definitions, tail);
        assert(tail[b] == components[b + 1]);
        b + 1
    } else {
        0
    }
}

/// Along a path of the graph, the index of the component never grows.
proof fn lemma_path_components(
    node_count: usize,
    edges: Edges,
    components: Seq<Seq<usize>>,
    p: Seq<usize>,
    a: int,
    b: int,
)
    requires
        are_components(node_count, edges, components),
        forall|k: int| 0 <= k < edges.len() ==> (#[trigger] edges[k]).0 < node_count && edges[k].1 < node_count,
        is_path(edges, p),
        0 <= a < components.len(),
        0 <= b < components.len(),
        components[a].contains(p[0]),
        components[b].contains(p.last()),
    ensures
        b <= a,
    decreases p.len(),
{
    if p.len() == 1 {
        assert(p.last() == p[0]);
    } else {
        let first: int = 0;
        let e = (p[first], p[first + 1]);
        assert(edges.contains(e));
        let k = choose|k: int| 0 <= k < edges.len() && edges[k] == e;
        assert(p[1] < node_count);
        assert(in_some_component(components, p[1]));
        let c = choose|c: int| 0 <= c < components.len() && #[trigger] components[c].contains(p[1]);
        assert(c <= a);
        let q = p.drop_first();
        assert(is_path(edges, q)) by {
            assert forall|j: int| 0 <= j < q.len() - 1 implies #[trigger] edges.contains(
                (q[j], q[j + 1]),
            ) by {
                let i = j + 1;
                assert(edges.contains((p[i], p[i + 1])));
            }
        }
        assert(q[0] == p[1] && q.last() == p.last());
        lemma_path_components(node_count, edges, components, q, c, b);
    }
}

/// The component that holds a node.
proof fn lemma_component_of(node_count: usize, edges: Edges, components: Seq<Seq<usize>>, x: usize) -> (a: int)
    requires
        are_components(node_count, edges, components),
        x < node_count,
    ensures
        0 <= a < components.len(),
        components[a].contains(x),
{
    assert(in_some_component(components, x));
    choose|a: int| 0 <= a < components.len() && #[trigger] components[a].contains(x)
}

/// A component that holds a node of a value holds a value.
proof fn lemma_holds_value(definitions: Seq<DefinitionV>, component: Seq<usize>, x: usize)
    requires
        component.contains(x),
        x < definitions.len(),
        is_value_name(definitions, global_name(definitions[x as int])),
    ensures
        holds_value(definitions, component),
{
    let k = choose|k: int| 0 <= k < component.len() && component[k] == x;
    assert(is_value_name(definitions, global_name(definitions[component[k] as int])));
}

proof fn lemma_order_respects_dependencies(m: ModuleV, components: Seq<Seq<usize>>, s: Seq<Seq<char>>)
    requires
        m.definitions.len() <= usize::MAX,
        are_components(
            m.definitions.len() as usize,
            dependency_edges(m.definitions, m.definitions.len() as int),
            components,
        ),
        forall|k: int|
            0 <= k < dependency_edges(m.definitions, m.definitions.len() as int).len() ==> (
            #[trigger] dependency_edges(m.definitions, m.definitions.len() as int)[k]).0
                < m.definitions.len() && dependency_edges(
                m.definitions,
                m.definitions.len() as int,
            )[k].1 < m.definitions.len(),
        order_of_components(m.definitions, components) == Ok::<Seq<Seq<char>>, ()>(s),
    ensures
        respects_dependencies(m, s),
{
    let defs = m.definitions;
    let n = defs.len() as usize;
    let edges = dependency_edges(defs, defs.len() as int);
    assert forall|x: Seq<char>, y: Seq<char>|
        #![trigger is_value_name(defs, x), is_value_name(defs, y)]
        is_value_name(defs, x) && is_value_name(defs, y) && x != y && reachable(
            edges,
            definition_index(defs, x).unwrap(),
            definition_index(defs, y).unwrap(),
        ) implies precedes(s, x, y) by {
        lemma_definition_index(defs, x);
        lemma_definition_index(defs, y);
        let ix = definition_index(defs, x).unwrap();
        let iy = definition_index(defs, y).unwrap();
        let a = lemma_component_of(n, edges, components, ix);
        let b = lemma_component_of(n, edges, components, iy);
        let p = choose|p: Seq<usize>| #[trigger] is_path(edges, p) && p[0] == ix && p.last() == iy;
        lemma_path_components(n, edges, components, p, a, b);
        lemma_holds_value(defs, components[a], ix);
        lemma_holds_value(defs, components[b], iy);
        lemma_order_singletons(defs, components, a);
        lemma_order_singletons(defs, components, b);
        assert(components[a][0] == ix);
        assert(components[b][0] == iy);
        assert(a != b);
        lemma_order_precedes(defs, components, a, b);
    }
}

/// Two definitions that depend on each other, one of them a value, make the
/// order fail.
proof fn lemma_circle_fails(
    definitions: Seq<DefinitionV>,
    edges: Edges,
    components: Seq<Seq<usize>>,
    u: usize,
    w: usize,
)
    requires
        definitions.len() <= usize::MAX,
        are_components(definitions.len() as usize, edges, components),
        u < definitions.len(),
        w < definitions.len(),
        u != w,
        is_value_name(definitions, global_name(definitions[u as int])),
        reachable(edges, u, w),
        reachable(edges, w, u),
    ensures
        order_of_components(definitions, components) is Err,
{
    let n = definitions.len() as usize;
    let a = lemma_component_of(n, edges, components, u);
    let c = lemma_component_of(n, edges, components, w);
    assert(a == c);
    lemma_holds_value(definitions, components[a], u);
    if order_of_components(definitions, components) is Ok {
        lemma_order_singletons(definitions, components, a);
        assert(components[a][0] == u);
        assert(components[a][0] == w);
    }
}

/// Where the order fails, two definitions depend on each other, one of them
/// a value.
proof fn lemma_failure_is_circle(m: ModuleV, components: Seq<Seq<usize>>)
    requires
        m.definitions.len() <= usize::MAX,
        are_components(
            m.definitions.len() as usize,
            dependency_edges(m.definitions, m.definitions.len() as int),
            components,
        ),
        order_of_components(m.definitions, components) is Err,
    ensures
        circular_initialization(m),
{
    let defs = m.definitions;
    let edges = dependency_edges(defs, defs.len() as int);
    let a = lemma_order_failure(defs, components);
    let c = components[a];
    let k = choose|k: int|
        0 <= k < c.len() && is_value_name(defs, global_name(#[trigger] defs[c[k] as int]));
    let k2: int = if k == 0 {
        1
    } else {
        0
    };
    let u = c[k];
    let w = c[k2];
    assert(c.contains(u) && c.contains(w));
    assert(u < defs.len() && w < defs.len());
    assert(components[a].no_duplicates());
    assert(u != w);
    assert(reachable(edges, u, w));
    assert(reachable(edges, w, u));
    assert(is_value_name(defs, global_name(defs[u as int])));
}

} // verus!
