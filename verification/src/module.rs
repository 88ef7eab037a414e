//! Modules: construction with environment inference and type checking,
//! renaming of globals, and the builders and accessors of definitions.
use crate::analysis::type_check::{
    check_module, check_types, completes, global_name, Failure, TypeCheckError,
};
use crate::environment::{
    definition_inferable, infer, infer_definition, inferable,
};
use crate::ir::{
    clone_arguments, names, view_arguments, view_declarations, view_definition, view_definitions,
    view_foreign_declarations, Argument, Declaration, DeclarationV, Definition, DefinitionV,
    Expression, ForeignDeclaration, ForeignDeclarationV, FunctionDefinition, FunctionDefinitionV,
    Module, ModuleV, ValueDefinition, ValueDefinitionV,
};
use crate::rename::{rename, renamed, view_renaming, Renaming};
use crate::types::Type;
use vstd::prelude::*;

verus! {

broadcast use vstd::std_specs::vec::group_vec_axioms;

pub open spec fn raw_module(
    foreign_declarations: Seq<ForeignDeclaration>,
    declarations: Seq<Declaration>,
    definitions: Seq<Definition>,
) -> ModuleV {
    ModuleV {
        foreign_declarations: view_foreign_declarations(foreign_declarations),
        declarations: view_declarations(declarations),
        definitions: view_definitions(definitions),
    }
}

/// The names of all globals of a module.
pub open spec fn global_names(m: ModuleV) -> Seq<Seq<char>> {
    m.foreign_declarations.map_values(|d: ForeignDeclarationV| d.name) + m.declarations.map_values(
        |d: DeclarationV| d.name,
    ) + m.definitions.map_values(|d: DefinitionV| global_name(d))
}

pub open spec fn infer_global(d: DefinitionV, globals: Seq<Seq<char>>) -> DefinitionV {
    match d {
        DefinitionV::Function(f) => DefinitionV::Function(
            infer_definition(f, Seq::empty(), globals),
        ),
        DefinitionV::Value(v) => DefinitionV::Value(
            ValueDefinitionV {
                name: v.name,
                body: infer(v.body, Seq::empty(), globals),
                type_: v.type_,
            },
        ),
    }
}

pub open spec fn global_inferable(d: DefinitionV, globals: Seq<Seq<char>>) -> bool {
    match d {
        DefinitionV::Function(f) => definition_inferable(f, Seq::empty(), globals),
        DefinitionV::Value(v) => inferable(v.body, Seq::empty(), globals),
    }
}

/// The module with the environments of its functions inferred, globals
/// being never captured.
pub open spec fn with_environments(m: ModuleV) -> ModuleV {
    ModuleV {
        foreign_declarations: m.foreign_declarations,
        declarations: m.declarations,
        definitions: m.definitions.map_values(|d: DefinitionV| infer_global(d, global_names(m))),
    }
}

/// Environment inference succeeds on the module: every variable that a
/// function captures has a type in scope, and so on.
pub open spec fn environments_inferable(m: ModuleV) -> bool {
    forall|i: int|
        0 <= i < m.definitions.len() ==> #[trigger] global_inferable(
            m.definitions[i],
            global_names(m),
        )
}

/// Renames the global definitions and the free variables of their bodies.
pub open spec fn rename_globals(m: ModuleV, r: Renaming) -> ModuleV {
    ModuleV {
        foreign_declarations: m.foreign_declarations,
        declarations: m.declarations,
        definitions: m.definitions.map_values(
            |d: DefinitionV|
                match d {
                    DefinitionV::Function(f) => DefinitionV::Function(
                        FunctionDefinitionV {
                            name: renamed(r, f.name),
                            environment: f.environment,
                            arguments: f.arguments,
                            body: rename(f.body, r),
                            result_type: f.result_type,
                        },
                    ),
                    DefinitionV::Value(v) => DefinitionV::Value(
                        ValueDefinitionV {
                            name: renamed(r, v.name),
                            body: rename(v.body, r),
                            type_: v.type_,
                        },
                    ),
                },
        ),
    }
}

impl Clone for Declaration {
    fn clone(&self) -> (r: Self)
        ensures
            r.name@ == self.name@,
            r.type_@ == self.type_@,
    {
        Declaration { name: self.name.clone(), type_: self.type_.clone() }
    }
}

impl Clone for ForeignDeclaration {
    fn clone(&self) -> (r: Self)
        ensures
            r.name@ == self.name@,
            r.foreign_name@ == self.foreign_name@,
            r.type_@ == self.type_@,
    {
        ForeignDeclaration {
            name: self.name.clone(),
            foreign_name: self.foreign_name.clone(),
            type_: self.type_.clone(),
        }
    }
}

pub(crate) fn clone_declarations(s: &Vec<Declaration>) -> (r: Vec<Declaration>)
    ensures
        view_declarations(r@) == view_declarations(s@),
{
    let mut r: Vec<Declaration> = Vec::new();
    for i in 0..s.len()
        invariant
            i <= s@.len(),
            r@.len() == i,
            forall|j: int|
                0 <= j < i ==> (#[trigger] r@[j]).name@ == s@[j].name@ && r@[j].type_@
                    == s@[j].type_@,
    {
        r.push(s[i].clone());
    }
    assert(view_declarations(r@) =~= view_declarations(s@));
    r
}

pub(crate) fn clone_foreign_declarations(s: &Vec<ForeignDeclaration>) -> (r: Vec<ForeignDeclaration>)
    ensures
        view_foreign_declarations(r@) == view_foreign_declarations(s@),
{
    let mut r: Vec<ForeignDeclaration> = Vec::new();
    for i in 0..s.len()
        invariant
            i <= s@.len(),
            r@.len() == i,
            forall|j: int|
                0 <= j < i ==> (#[trigger] r@[j]).name@ == s@[j].name@ && r@[j].foreign_name@
                    == s@[j].foreign_name@ && r@[j].type_@ == s@[j].type_@,
    {
        r.push(s[i].clone());
    }
    assert(view_foreign_declarations(r@) =~= view_foreign_declarations(s@));
    r
}

impl Definition {
    pub fn name(&self) -> (r: &str)
        ensures
            r@ == global_name(self@),
    {
        match self {
            Definition::FunctionDefinition(f) => f.name.as_str(),
            Definition::ValueDefinition(v) => v.name.as_str(),
        }
    }
}

impl Module {
    /// A module taken as it is, without inference or checks.
    pub fn without_validation(
        foreign_declarations: Vec<ForeignDeclaration>,
        declarations: Vec<Declaration>,
        definitions: Vec<Definition>,
    ) -> (r: Self)
        ensures
            r.foreign_declarations == foreign_declarations,
            r.declarations == declarations,
            r.definitions == definitions,
    {
        Module { foreign_declarations, declarations, definitions }
    }

    pub fn foreign_declarations(&self) -> (r: &[ForeignDeclaration])
        ensures
            r@ == self.foreign_declarations@,
    {
        self.foreign_declarations.as_slice()
    }

    pub fn declarations(&self) -> (r: &[Declaration])
        ensures
            r@ == self.declarations@,
    {
        self.declarations.as_slice()
    }

    pub fn definitions(&self) -> (r: &[Definition])
        ensures
            r@ == self.definitions@,
    {
        self.definitions.as_slice()
    }

    /// Builds a module: infers the environments of its functions (globals are
    /// never captured) and checks its types.
    pub fn new(
        foreign_declarations: Vec<ForeignDeclaration>,
        declarations: Vec<Declaration>,
        definitions: Vec<Definition>,
    ) -> (r: Result<Self, TypeCheckError>)
        requires
            environments_inferable(
                raw_module(foreign_declarations@, declarations@, definitions@),
            ),
            completes(
                check_module(
                    with_environments(raw_module(foreign_declarations@, declarations@, definitions@)),
                ),
            ),
        ensures
            ({
                let m = with_environments(
                    raw_module(foreign_declarations@, declarations@, definitions@),
                );
                match r {
                    Ok(module) => module@ == m && check_module(m) is Ok,
                    Err(e) => check_module(m) == Err::<(), Failure>(Failure::Error(e@)),
                }
            }),
    {
        let ghost raw = raw_module(foreign_declarations@, declarations@, definitions@);
        let ghost g = global_names(raw);
        let mut globals: Vec<String> = Vec::new();
        let ghost foreign = raw.foreign_declarations.map_values(|d: ForeignDeclarationV| d.name);
        let ghost declared = raw.declarations.map_values(|d: DeclarationV| d.name);
        let ghost defined = raw.definitions.map_values(|d: DefinitionV| global_name(d));
        for i in 0..foreign_declarations.len()
            invariant
                i <= foreign_declarations@.len(),
                raw == raw_module(foreign_declarations@, declarations@, definitions@),
                foreign == raw.foreign_declarations.map_values(|d: ForeignDeclarationV| d.name),
                names(globals@) == foreign.subrange(0, i as int),
        {
            let ghost before = names(globals@);
            globals.push(foreign_declarations[i].name.clone());
            assert(names(globals@) =~= before.push(foreign[i as int]));
            assert(names(globals@) =~= foreign.subrange(0, i + 1));
        }
        assert(foreign.subrange(0, foreign.len() as int) =~= foreign);
        for i in 0..declarations.len()
            invariant
                i <= declarations@.len(),
                raw == raw_module(foreign_declarations@, declarations@, definitions@),
                declared == raw.declarations.map_values(|d: DeclarationV| d.name),
                names(globals@) == foreign + declared.subrange(0, i as int),
        {
            let ghost before = names(globals@);
            globals.push(declarations[i].name.clone());
            assert(names(globals@) =~= before.push(declared[i as int]));
            assert(names(globals@) =~= foreign + declared.subrange(0, i + 1));
        }
        assert(declared.subrange(0, declared.len() as int) =~= declared);
        for i in 0..definitions.len()
            invariant
                i <= definitions@.len(),
                raw == raw_module(foreign_declarations@, declarations@, definitions@),
                defined == raw.definitions.map_values(|d: DefinitionV| global_name(d)),
                names(globals@) == foreign + declared + defined.subrange(0, i as int),
        {
            let ghost before = names(globals@);
            let name = definitions[i].name();
            globals.push(name.to_owned());
            assert(names(globals@) =~= before.push(defined[i as int]));
            assert(names(globals@) =~= foreign + declared + defined.subrange(0, i + 1));
        }
        assert(defined.subrange(0, defined.len() as int) =~= defined);
        assert(names(globals@) =~= g);
        let mut inferred: Vec<Definition> = Vec::new();
        let empty: Vec<(String, Type)> = Vec::new();
        assert(crate::analysis::type_check::view_environment(empty@) =~= Seq::empty());
        for i in 0..definitions.len()
            invariant
                i <= definitions@.len(),
                inferred@.len() == i,
                raw == raw_module(foreign_declarations@, declarations@, definitions@),
                environments_inferable(raw),
                names(globals@) == g,
                g == global_names(raw),
                crate::analysis::type_check::view_environment(empty@) == Seq::<
                    (Seq<char>, crate::types::TypeV),
                >::empty(),
                forall|j: int|
                    0 <= j < i ==> #[trigger] view_definition(inferred@[j]) == infer_global(
                        raw.definitions[j],
                        g,
                    ),
        {
            assert(global_inferable(raw.definitions[i as int], g));
            assert(raw.definitions[i as int] == view_definition(definitions@[i as int]));
            let d = match &definitions[i] {
                Definition::FunctionDefinition(f) => Definition::FunctionDefinition(
                    f.infer_environment(&empty, &globals),
                ),
                Definition::ValueDefinition(v) => Definition::ValueDefinition(
                    ValueDefinition {
                        name: v.name.clone(),
                        body: v.body.infer_environment(&empty, &globals),
                        type_: v.type_.clone(),
                    },
                ),
            };
            inferred.push(d);
        }
        let module = Module {
            foreign_declarations,
            declarations,
            definitions: inferred,
        };
        assert(module@.definitions =~= with_environments(raw).definitions);
        assert(module@ == with_environments(raw));
        match check_types(&module) {
            Ok(_) => Ok(module),
            Err(e) => Err(e),
        }
    }

    /// Renames global definitions and the free variables of their bodies; a
    /// name without a new one stays as it is. Environments are kept.
    pub fn rename_global_definitions(&self, m: &Vec<(String, String)>) -> (r: Module)
        ensures
            r@ == rename_globals(self@, view_renaming(m@)),
    {
        let mut definitions: Vec<Definition> = Vec::new();
        for i in 0..self.definitions.len()
            invariant
                i <= self.definitions@.len(),
                definitions@.len() == i,
                forall|j: int|
                    0 <= j < i ==> #[trigger] view_definition(definitions@[j])
                        == rename_globals(self@, view_renaming(m@)).definitions[j],
        {
            let d = match &self.definitions[i] {
                Definition::FunctionDefinition(f) => Definition::FunctionDefinition(
                    FunctionDefinition {
                        name: crate::rename::lookup_renaming(m, &f.name),
                        environment: clone_arguments(&f.environment),
                        arguments: clone_arguments(&f.arguments),
                        body: f.body.rename_variables(m),
                        result_type: f.result_type.clone(),
                    },
                ),
                Definition::ValueDefinition(v) => Definition::ValueDefinition(
                    ValueDefinition {
                        name: crate::rename::lookup_renaming(m, &v.name),
                        body: v.body.rename_variables(m),
                        type_: v.type_.clone(),
                    },
                ),
            };
            definitions.push(d);
        }
        let r = Module {
            foreign_declarations: clone_foreign_declarations(&self.foreign_declarations),
            declarations: clone_declarations(&self.declarations),
            definitions,
        };
        assert(r@.definitions =~= rename_globals(self@, view_renaming(m@)).definitions);
        r
    }
}

impl FunctionDefinition {
    /// A function definition with an empty environment.
    pub fn new(name: &str, arguments: Vec<Argument>, body: Expression, result_type: Type) -> (r:
        Self)
        ensures
            r.name@ == name@,
            r.environment@ == Seq::<Argument>::empty(),
            r.arguments == arguments,
            r.body == body,
            r.result_type == result_type,
    {
        FunctionDefinition {
            name: name.to_owned(),
            environment: Vec::new(),
            arguments,
            body,
            result_type,
        }
    }

    pub fn with_environment(
        name: &str,
        environment: Vec<Argument>,
        arguments: Vec<Argument>,
        body: Expression,
        result_type: Type,
    ) -> (r: Self)
        ensures
            r.name@ == name@,
            r.environment == environment,
            r.arguments == arguments,
            r.body == body,
            r.result_type == result_type,
    {
        FunctionDefinition { name: name.to_owned(), environment, arguments, body, result_type }
    }

    pub fn name(&self) -> (r: &str)
        ensures
            r@ == self.name@,
    {
        self.name.as_str()
    }

    pub fn environment(&self) -> (r: &[Argument])
        ensures
            r@ == self.environment@,
    {
        self.environment.as_slice()
    }

    pub fn arguments(&self) -> (r: &[Argument])
        ensures
            r@ == self.arguments@,
    {
        self.arguments.as_slice()
    }

    pub fn body(&self) -> (r: &Expression)
        ensures
            *r == self.body,
    {
        &self.body
    }

    pub fn result_type(&self) -> (r: &Type)
        ensures
            *r == self.result_type,
    {
        &self.result_type
    }
}

impl ValueDefinition {
    pub fn new(name: &str, body: Expression, type_: Type) -> (r: Self)
        ensures
            r.name@ == name@,
            r.body == body,
            r.type_ == type_,
    {
        ValueDefinition { name: name.to_owned(), body, type_ }
    }
}

/// Renaming the globals of a module by no pairs changes nothing.
pub proof fn rename_globals_by_nothing_is_identity(m: ModuleV)
    ensures
        rename_globals(m, Seq::empty()) == m,
{
    let r = rename_globals(m, Seq::empty());
    assert forall|i: int| 0 <= i < m.definitions.len() implies #[trigger] r.definitions[i]
        == m.definitions[i] by {
        match m.definitions[i] {
            DefinitionV::Function(f) => crate::rename::rename_by_nothing_is_identity(f.body),
            DefinitionV::Value(v) => crate::rename::rename_by_nothing_is_identity(v.body),
        }
    }
    assert(r.definitions =~= m.definitions);
}

/// Renaming the globals of a module keeps every definition's kind and every
/// function's environment: nothing is inferred anew.
pub proof fn rename_globals_keeps_environments(m: ModuleV, r: Renaming)
    ensures
        rename_globals(m, r).definitions.len() == m.definitions.len(),
        forall|i: int|
            0 <= i < m.definitions.len() ==> match (#[trigger] m.definitions[i], rename_globals(
                m,
                r,
            ).definitions[i]) {
                (DefinitionV::Function(f), DefinitionV::Function(g)) => g.environment
                    == f.environment,
                (DefinitionV::Value(_), DefinitionV::Value(_)) => true,
                _ => false,
            },
{
}

} // verus!
