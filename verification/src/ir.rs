//! The intermediate representation: expressions, definitions and modules,
//! together with their mathematical models.
use crate::types::{
    function_type, lemma_view_constructors, view_constructors, Algebraic, ConstructorV, Type, TypeV,
};
use vstd::prelude::*;

verus! {

broadcast use vstd::std_specs::vec::group_vec_axioms;

/// A primitive value. Floating point numbers are held by their IEEE 754 bit
/// patterns.
#[derive(Clone, Copy, Debug, PartialEq, Eq, Structural)]
pub enum Primitive {
    Float32(u32),
    Float64(u64),
    Integer8(u8),
    Integer32(u32),
    Integer64(u64),
}

#[derive(Clone, Copy, Debug, PartialEq, Eq, Structural)]
pub enum PrimitiveOperator {
    Add,
    Subtract,
    Multiply,
    Divide,
    Equal,
    NotEqual,
    GreaterThan,
    GreaterThanOrEqual,
    LessThan,
    LessThanOrEqual,
}

#[derive(Debug, PartialEq)]
pub struct Variable {
    pub name: String,
}

#[derive(Debug, PartialEq)]
pub struct Argument {
    pub name: String,
    pub type_: Type,
}

/// A reference to the constructor at `index` of an algebraic type.
#[derive(Debug, PartialEq)]
pub struct Constructor {
    pub algebraic_type: Algebraic,
    pub index: u64,
}

#[derive(Debug, PartialEq)]
pub struct AlgebraicAlternative {
    pub constructor: Constructor,
    pub element_names: Vec<String>,
    pub expression: Expression,
}

#[derive(Debug, PartialEq)]
pub struct AlgebraicCase {
    pub argument: Box<Expression>,
    pub alternatives: Vec<AlgebraicAlternative>,
    pub default_alternative: Option<Box<Expression>>,
}

#[derive(Debug, PartialEq)]
pub struct PrimitiveAlternative {
    pub primitive: Primitive,
    pub expression: Expression,
}

#[derive(Debug, PartialEq)]
pub struct PrimitiveCase {
    pub argument: Box<Expression>,
    pub alternatives: Vec<PrimitiveAlternative>,
    pub default_alternative: Option<Box<Expression>>,
}

#[derive(Debug, PartialEq)]
pub enum Case {
    Algebraic(AlgebraicCase),
    Primitive(PrimitiveCase),
}

#[derive(Debug, PartialEq)]
pub struct Bitcast {
    pub expression: Box<Expression>,
    pub type_: Type,
}

#[derive(Debug, PartialEq)]
pub struct ConstructorApplication {
    pub constructor: Constructor,
    pub arguments: Vec<Expression>,
}

#[derive(Debug, PartialEq)]
pub struct FunctionApplication {
    pub function: Box<Expression>,
    pub argument: Box<Expression>,
}

/// Mutually recursive local function definitions.
#[derive(Debug, PartialEq)]
pub struct LetRecursive {
    pub definitions: Vec<FunctionDefinition>,
    pub expression: Box<Expression>,
}

#[derive(Debug, PartialEq)]
pub struct Let {
    pub name: String,
    pub type_: Type,
    pub bound_expression: Box<Expression>,
    pub expression: Box<Expression>,
}

#[derive(Debug, PartialEq)]
pub struct PrimitiveOperation {
    pub operator: PrimitiveOperator,
    pub lhs: Box<Expression>,
    pub rhs: Box<Expression>,
}

#[derive(Debug, PartialEq)]
pub enum Expression {
    Bitcast(Bitcast),
    Case(Case),
    ConstructorApplication(ConstructorApplication),
    FunctionApplication(FunctionApplication),
    LetRecursive(LetRecursive),
    Let(Let),
    Primitive(Primitive),
    PrimitiveOperation(PrimitiveOperation),
    Variable(Variable),
}

/// A function definition. `environment` lists the free variables that the
/// function captures from its surroundings.
#[derive(Debug, PartialEq)]
pub struct FunctionDefinition {
    pub name: String,
    pub environment: Vec<Argument>,
    pub arguments: Vec<Argument>,
    pub body: Expression,
    pub result_type: Type,
}

/// A global constant.
#[derive(Debug, PartialEq)]
pub struct ValueDefinition {
    pub name: String,
    pub body: Expression,
    pub type_: Type,
}

#[derive(Debug, PartialEq)]
pub enum Definition {
    FunctionDefinition(FunctionDefinition),
    ValueDefinition(ValueDefinition),
}

/// A global function defined elsewhere.
#[derive(Debug, PartialEq)]
pub struct Declaration {
    pub name: String,
    pub type_: crate::types::Function,
}

/// A function of a foreign language, known under `foreign_name` there.
#[derive(Debug, PartialEq)]
pub struct ForeignDeclaration {
    pub name: String,
    pub foreign_name: String,
    pub type_: crate::types::Function,
}

#[derive(Debug, PartialEq)]
pub struct Module {
    pub foreign_declarations: Vec<ForeignDeclaration>,
    pub declarations: Vec<Declaration>,
    pub definitions: Vec<Definition>,
}

// ---------------------------------------------------------------------------
// Mathematical models

pub struct ArgumentV {
    pub name: Seq<char>,
    pub type_: TypeV,
}

pub struct ConstructorRefV {
    pub algebraic_type: Seq<ConstructorV>,
    pub index: nat,
}

pub struct AlgebraicAlternativeV {
    pub constructor: ConstructorRefV,
    pub element_names: Seq<Seq<char>>,
    pub expression: ExpressionV,
}

pub struct PrimitiveAlternativeV {
    pub primitive: Primitive,
    pub expression: ExpressionV,
}

pub enum ExpressionV {
    Bitcast(Box<ExpressionV>, TypeV),
    AlgebraicCase(Box<ExpressionV>, Seq<AlgebraicAlternativeV>, Option<Box<ExpressionV>>),
    PrimitiveCase(Box<ExpressionV>, Seq<PrimitiveAlternativeV>, Option<Box<ExpressionV>>),
    ConstructorApplication(ConstructorRefV, Seq<ExpressionV>),
    FunctionApplication(Box<ExpressionV>, Box<ExpressionV>),
    LetRecursive(Seq<FunctionDefinitionV>, Box<ExpressionV>),
    Let(Seq<char>, TypeV, Box<ExpressionV>, Box<ExpressionV>),
    Primitive(Primitive),
    PrimitiveOperation(PrimitiveOperator, Box<ExpressionV>, Box<ExpressionV>),
    Variable(Seq<char>),
}

pub struct FunctionDefinitionV {
    pub name: Seq<char>,
    pub environment: Seq<ArgumentV>,
    pub arguments: Seq<ArgumentV>,
    pub body: ExpressionV,
    pub result_type: TypeV,
}

pub struct ValueDefinitionV {
    pub name: Seq<char>,
    pub body: ExpressionV,
    pub type_: TypeV,
}

pub enum DefinitionV {
    Function(FunctionDefinitionV),
    Value(ValueDefinitionV),
}

pub struct DeclarationV {
    pub name: Seq<char>,
    pub type_: TypeV,
}

pub struct ForeignDeclarationV {
    pub name: Seq<char>,
    pub foreign_name: Seq<char>,
    pub type_: TypeV,
}

pub struct ModuleV {
    pub foreign_declarations: Seq<ForeignDeclarationV>,
    pub declarations: Seq<DeclarationV>,
    pub definitions: Seq<DefinitionV>,
}

pub open spec fn names(s: Seq<String>) -> Seq<Seq<char>> {
    s.map_values(|x: String| x@)
}

pub open spec fn view_argument(a: Argument) -> ArgumentV {
    ArgumentV { name: a.name@, type_: a.type_@ }
}

pub open spec fn view_arguments(s: Seq<Argument>) -> Seq<ArgumentV> {
    s.map_values(|a: Argument| view_argument(a))
}

pub open spec fn view_constructor_ref(c: Constructor) -> ConstructorRefV {
    ConstructorRefV { algebraic_type: c.algebraic_type@, index: c.index as nat }
}

pub open spec fn view_expression(e: Expression) -> ExpressionV
    decreases e,
{
    match e {
        Expression::Bitcast(b) => ExpressionV::Bitcast(
            Box::new(view_expression(*b.expression)),
            b.type_@,
        ),
        Expression::Case(Case::Algebraic(c)) => ExpressionV::AlgebraicCase(
            Box::new(view_expression(*c.argument)),
            view_algebraic_alternatives(c.alternatives@),
            match c.default_alternative {
                Some(d) => Some(Box::new(view_expression(*d))),
                None => None,
            },
        ),
        Expression::Case(Case::Primitive(c)) => ExpressionV::PrimitiveCase(
            Box::new(view_expression(*c.argument)),
            view_primitive_alternatives(c.alternatives@),
            match c.default_alternative {
                Some(d) => Some(Box::new(view_expression(*d))),
                None => None,
            },
        ),
        Expression::ConstructorApplication(a) => ExpressionV::ConstructorApplication(
            view_constructor_ref(a.constructor),
            view_expressions(a.arguments@),
        ),
        Expression::FunctionApplication(a) => ExpressionV::FunctionApplication(
            Box::new(view_expression(*a.function)),
            Box::new(view_expression(*a.argument)),
        ),
        Expression::LetRecursive(l) => ExpressionV::LetRecursive(
            view_function_definitions(l.definitions@),
            Box::new(view_expression(*l.expression)),
        ),
        Expression::Let(l) => ExpressionV::Let(
            l.name@,
            l.type_@,
            Box::new(view_expression(*l.bound_expression)),
            Box::new(view_expression(*l.expression)),
        ),
        Expression::Primitive(p) => ExpressionV::Primitive(p),
        Expression::PrimitiveOperation(o) => ExpressionV::PrimitiveOperation(
            o.operator,
            Box::new(view_expression(*o.lhs)),
            Box::new(view_expression(*o.rhs)),
        ),
        Expression::Variable(v) => ExpressionV::Variable(v.name@),
    }
}

pub open spec fn view_default(d: Option<Box<Expression>>) -> Option<Box<ExpressionV>> {
    match d {
        Some(x) => Some(Box::new(view_expression(*x))),
        None => None,
    }
}

pub open spec fn view_expressions(s: Seq<Expression>) -> Seq<ExpressionV>
    decreases s,
{
    if s.len() == 0 {
        Seq::empty()
    } else {
        view_expressions(s.subrange(0, s.len() - 1)).push(view_expression(s[s.len() - 1]))
    }
}

pub open spec fn view_algebraic_alternative(a: AlgebraicAlternative) -> AlgebraicAlternativeV
    decreases a,
{
    AlgebraicAlternativeV {
        constructor: view_constructor_ref(a.constructor),
        element_names: names(a.element_names@),
        expression: view_expression(a.expression),
    }
}

pub open spec fn view_algebraic_alternatives(s: Seq<AlgebraicAlternative>) -> Seq<
    AlgebraicAlternativeV,
>
    decreases s,
{
    if s.len() == 0 {
        Seq::empty()
    } else {
        view_algebraic_alternatives(s.subrange(0, s.len() - 1)).push(
            view_algebraic_alternative(s[s.len() - 1]),
        )
    }
}

pub open spec fn view_primitive_alternative(a: PrimitiveAlternative) -> PrimitiveAlternativeV
    decreases a,
{
    PrimitiveAlternativeV { primitive: a.primitive, expression: view_expression(a.expression) }
}

pub open spec fn view_primitive_alternatives(s: Seq<PrimitiveAlternative>) -> Seq<
    PrimitiveAlternativeV,
>
    decreases s,
{
    if s.len() == 0 {
        Seq::empty()
    } else {
        view_primitive_alternatives(s.subrange(0, s.len() - 1)).push(
            view_primitive_alternative(s[s.len() - 1]),
        )
    }
}

pub open spec fn view_function_definition(d: FunctionDefinition) -> FunctionDefinitionV
    decreases d,
{
    FunctionDefinitionV {
        name: d.name@,
        environment: view_arguments(d.environment@),
        arguments: view_arguments(d.arguments@),
        body: view_expression(d.body),
        result_type: d.result_type@,
    }
}

pub open spec fn view_function_definitions(s: Seq<FunctionDefinition>) -> Seq<FunctionDefinitionV>
    decreases s,
{
    if s.len() == 0 {
        Seq::empty()
    } else {
        view_function_definitions(s.subrange(0, s.len() - 1)).push(
            view_function_definition(s[s.len() - 1]),
        )
    }
}

pub open spec fn view_definition(d: Definition) -> DefinitionV {
    match d {
        Definition::FunctionDefinition(f) => DefinitionV::Function(view_function_definition(f)),
        Definition::ValueDefinition(v) => DefinitionV::Value(
            ValueDefinitionV { name: v.name@, body: view_expression(v.body), type_: v.type_@ },
        ),
    }
}

pub open spec fn view_definitions(s: Seq<Definition>) -> Seq<DefinitionV> {
    s.map_values(|d: Definition| view_definition(d))
}

pub open spec fn view_declarations(s: Seq<Declaration>) -> Seq<DeclarationV> {
    s.map_values(|d: Declaration| DeclarationV { name: d.name@, type_: d.type_@ })
}

pub open spec fn view_foreign_declarations(s: Seq<ForeignDeclaration>) -> Seq<ForeignDeclarationV> {
    s.map_values(
        |d: ForeignDeclaration|
            ForeignDeclarationV { name: d.name@, foreign_name: d.foreign_name@, type_: d.type_@ },
    )
}

/// The type of a function definition: its arguments curried onto its result
/// (the result type itself when there are no arguments).
pub open spec fn definition_type(d: FunctionDefinitionV) -> TypeV {
    function_type(d.arguments.map_values(|a: ArgumentV| a.type_), d.result_type)
}

pub proof fn lemma_view_expressions(s: Seq<Expression>)
    ensures
        view_expressions(s).len() == s.len(),
        forall|i: int| 0 <= i < s.len() ==> #[trigger] view_expressions(s)[i] == view_expression(s[i]),
    decreases s.len(),
{
    if s.len() > 0 {
        lemma_view_expressions(s.subrange(0, s.len() - 1));
    }
}

pub proof fn lemma_view_algebraic_alternatives(s: Seq<AlgebraicAlternative>)
    ensures
        view_algebraic_alternatives(s).len() == s.len(),
        forall|i: int|
            0 <= i < s.len() ==> #[trigger] view_algebraic_alternatives(s)[i]
                == view_algebraic_alternative(s[i]),
    decreases s.len(),
{
    if s.len() > 0 {
        lemma_view_algebraic_alternatives(s.subrange(0, s.len() - 1));
    }
}

pub proof fn lemma_view_primitive_alternatives(s: Seq<PrimitiveAlternative>)
    ensures
        view_primitive_alternatives(s).len() == s.len(),
        forall|i: int|
            0 <= i < s.len() ==> #[trigger] view_primitive_alternatives(s)[i]
                == view_primitive_alternative(s[i]),
    decreases s.len(),
{
    if s.len() > 0 {
        lemma_view_primitive_alternatives(s.subrange(0, s.len() - 1));
    }
}

pub proof fn lemma_view_function_definitions(s: Seq<FunctionDefinition>)
    ensures
        view_function_definitions(s).len() == s.len(),
        forall|i: int|
            0 <= i < s.len() ==> #[trigger] view_function_definitions(s)[i]
                == view_function_definition(s[i]),
    decreases s.len(),
{
    if s.len() > 0 {
        lemma_view_function_definitions(s.subrange(0, s.len() - 1));
    }
}

impl View for Expression {
    type V = ExpressionV;

    open spec fn view(&self) -> ExpressionV {
        view_expression(*self)
    }
}

impl View for FunctionDefinition {
    type V = FunctionDefinitionV;

    open spec fn view(&self) -> FunctionDefinitionV {
        view_function_definition(*self)
    }
}

impl View for Definition {
    type V = DefinitionV;

    open spec fn view(&self) -> DefinitionV {
        view_definition(*self)
    }
}

impl View for Module {
    type V = ModuleV;

    open spec fn view(&self) -> ModuleV {
        ModuleV {
            foreign_declarations: view_foreign_declarations(self.foreign_declarations@),
            declarations: view_declarations(self.declarations@),
            definitions: view_definitions(self.definitions@),
        }
    }
}


// ---------------------------------------------------------------------------
// Deep copies

pub fn clone_strings(s: &Vec<String>) -> (r: Vec<String>)
    ensures
        names(r@) == names(s@),
{
    let mut r: Vec<String> = Vec::new();
    for i in 0..s.len()
        invariant
            r@.len() == i,
            i <= s@.len(),
            forall|j: int| 0 <= j < i ==> #[trigger] r@[j]@ == s@[j]@,
    {
        r.push(s[i].clone());
    }
    assert(names(r@) =~= names(s@));
    r
}

impl Clone for Variable {
    fn clone(&self) -> (r: Self)
        ensures
            r.name@ == self.name@,
    {
        Variable { name: self.name.clone() }
    }
}

impl Clone for Argument {
    fn clone(&self) -> (r: Self)
        ensures
            view_argument(r) == view_argument(*self),
    {
        Argument { name: self.name.clone(), type_: self.type_.clone() }
    }
}

pub fn clone_arguments(s: &Vec<Argument>) -> (r: Vec<Argument>)
    ensures
        view_arguments(r@) == view_arguments(s@),
{
    let mut r: Vec<Argument> = Vec::new();
    for i in 0..s.len()
        invariant
            r@.len() == i,
            i <= s@.len(),
            forall|j: int| 0 <= j < i ==> #[trigger] view_argument(r@[j]) == view_argument(s@[j]),
    {
        r.push(s[i].clone());
    }
    assert(view_arguments(r@) =~= view_arguments(s@));
    r
}

impl Clone for Constructor {
    fn clone(&self) -> (r: Self)
        ensures
            view_constructor_ref(r) == view_constructor_ref(*self),
    {
        Constructor { algebraic_type: self.algebraic_type.clone(), index: self.index }
    }
}

fn clone_optional(e: &Option<Box<Expression>>) -> (r: Option<Box<Expression>>)
    ensures
        match (r, *e) {
            (Some(a), Some(b)) => view_expression(*a) == view_expression(*b),
            (None, None) => true,
            _ => false,
        },
    decreases e,
{
    match e {
        Some(d) => Some(Box::new((**d).clone())),
        None => None,
    }
}

pub fn clone_expressions(s: &Vec<Expression>) -> (r: Vec<Expression>)
    ensures
        view_expressions(r@) == view_expressions(s@),
    decreases s,
{
    let mut r: Vec<Expression> = Vec::new();
    for i in 0..s.len()
        invariant
            r@.len() == i,
            i <= s@.len(),
            forall|j: int|
                0 <= j < i ==> #[trigger] view_expression(r@[j]) == view_expression(s@[j]),
    {
        r.push(s[i].clone());
    }
    proof {
        lemma_view_expressions(r@);
        lemma_view_expressions(s@);
    }
    assert(view_expressions(r@) =~= view_expressions(s@));
    r
}

fn clone_algebraic_alternatives(s: &Vec<AlgebraicAlternative>) -> (r: Vec<AlgebraicAlternative>)
    ensures
        view_algebraic_alternatives(r@) == view_algebraic_alternatives(s@),
    decreases s,
{
    let mut r: Vec<AlgebraicAlternative> = Vec::new();
    for i in 0..s.len()
        invariant
            r@.len() == i,
            i <= s@.len(),
            forall|j: int|
                0 <= j < i ==> #[trigger] view_algebraic_alternative(r@[j])
                    == view_algebraic_alternative(s@[j]),
    {
        let a = &s[i];
        r.push(
            AlgebraicAlternative {
                constructor: a.constructor.clone(),
                element_names: clone_strings(&a.element_names),
                expression: a.expression.clone(),
            },
        );
    }
    proof {
        lemma_view_algebraic_alternatives(r@);
        lemma_view_algebraic_alternatives(s@);
    }
    assert(view_algebraic_alternatives(r@) =~= view_algebraic_alternatives(s@));
    r
}

fn clone_primitive_alternatives(s: &Vec<PrimitiveAlternative>) -> (r: Vec<PrimitiveAlternative>)
    ensures
        view_primitive_alternatives(r@) == view_primitive_alternatives(s@),
    decreases s,
{
    let mut r: Vec<PrimitiveAlternative> = Vec::new();
    for i in 0..s.len()
        invariant
            r@.len() == i,
            i <= s@.len(),
            forall|j: int|
                0 <= j < i ==> #[trigger] view_primitive_alternative(r@[j])
                    == view_primitive_alternative(s@[j]),
    {
        let a = &s[i];
        r.push(PrimitiveAlternative { primitive: a.primitive, expression: a.expression.clone() });
    }
    proof {
        lemma_view_primitive_alternatives(r@);
        lemma_view_primitive_alternatives(s@);
    }
    assert(view_primitive_alternatives(r@) =~= view_primitive_alternatives(s@));
    r
}

pub fn clone_function_definitions(s: &Vec<FunctionDefinition>) -> (r: Vec<FunctionDefinition>)
    ensures
        view_function_definitions(r@) == view_function_definitions(s@),
    decreases s,
{
    let mut r: Vec<FunctionDefinition> = Vec::new();
    for i in 0..s.len()
        invariant
            r@.len() == i,
            i <= s@.len(),
            forall|j: int|
                0 <= j < i ==> #[trigger] view_function_definition(r@[j])
                    == view_function_definition(s@[j]),
    {
        r.push(s[i].clone());
    }
    proof {
        lemma_view_function_definitions(r@);
        lemma_view_function_definitions(s@);
    }
    assert(view_function_definitions(r@) =~= view_function_definitions(s@));
    r
}

impl Clone for FunctionDefinition {
    fn clone(&self) -> (r: Self)
        ensures
            r@ == self@,
        decreases self,
    {
        FunctionDefinition {
            name: self.name.clone(),
            environment: clone_arguments(&self.environment),
            arguments: clone_arguments(&self.arguments),
            body: self.body.clone(),
            result_type: self.result_type.clone(),
        }
    }
}

impl Clone for Case {
    fn clone(&self) -> (r: Self)
        ensures
            view_expression(Expression::Case(r)) == view_expression(Expression::Case(*self)),
        decreases self,
    {
        match self {
            Case::Algebraic(c) => Case::Algebraic(
                AlgebraicCase {
                    argument: Box::new((*c.argument).clone()),
                    alternatives: clone_algebraic_alternatives(&c.alternatives),
                    default_alternative: clone_optional(&c.default_alternative),
                },
            ),
            Case::Primitive(c) => Case::Primitive(
                PrimitiveCase {
                    argument: Box::new((*c.argument).clone()),
                    alternatives: clone_primitive_alternatives(&c.alternatives),
                    default_alternative: clone_optional(&c.default_alternative),
                },
            ),
        }
    }
}

impl Clone for Expression {
    fn clone(&self) -> (r: Self)
        ensures
            r@ == self@,
        decreases self,
    {
        match self {
            Expression::Bitcast(b) => Expression::Bitcast(
                Bitcast { expression: Box::new((*b.expression).clone()), type_: b.type_.clone() },
            ),
            Expression::Case(c) => Expression::Case(c.clone()),
            Expression::ConstructorApplication(a) => Expression::ConstructorApplication(
                ConstructorApplication {
                    constructor: a.constructor.clone(),
                    arguments: clone_expressions(&a.arguments),
                },
            ),
            Expression::FunctionApplication(a) => Expression::FunctionApplication(
                FunctionApplication {
                    function: Box::new((*a.function).clone()),
                    argument: Box::new((*a.argument).clone()),
                },
            ),
            Expression::LetRecursive(l) => Expression::LetRecursive(
                LetRecursive {
                    definitions: clone_function_definitions(&l.definitions),
                    expression: Box::new((*l.expression).clone()),
                },
            ),
            Expression::Let(l) => Expression::Let(
                Let {
                    name: l.name.clone(),
                    type_: l.type_.clone(),
                    bound_expression: Box::new((*l.bound_expression).clone()),
                    expression: Box::new((*l.expression).clone()),
                },
            ),
            Expression::Primitive(p) => Expression::Primitive(*p),
            Expression::PrimitiveOperation(o) => Expression::PrimitiveOperation(
                PrimitiveOperation {
                    operator: o.operator,
                    lhs: Box::new((*o.lhs).clone()),
                    rhs: Box::new((*o.rhs).clone()),
                },
            ),
            Expression::Variable(v) => Expression::Variable(v.clone()),
        }
    }
}


impl FunctionDefinition {
    /// The type of the function: its arguments curried onto its result.
    pub fn type_(&self) -> (r: Type)
        ensures
            r@ == definition_type(self@),
    {
        let ghost types = view_arguments(self.arguments@).map_values(|a: ArgumentV| a.type_);
        let n = self.arguments.len();
        let mut t = self.result_type.clone();
        let mut i = n;
        assert(types.subrange(n as int, n as int) =~= Seq::<TypeV>::empty());
        while i > 0
            invariant
                i <= n,
                n == self.arguments@.len(),
                types.len() == n,
                forall|j: int| 0 <= j < n ==> #[trigger] types[j] == self.arguments@[j].type_@,
                t@ == function_type(types.subrange(i as int, n as int), self.result_type@),
            decreases i,
        {
            i = i - 1;
            let argument = self.arguments[i].type_.clone();
            assert(types.subrange(i as int, n as int).subrange(1, (n - i) as int) =~= types.subrange(
                i + 1,
                n as int,
            ));
            t = Type::Function(crate::types::Function::new(argument, t));
        }
        assert(types.subrange(0, n as int) =~= types);
        t
    }
}

// ---------------------------------------------------------------------------
// Builders

impl Variable {
    pub fn new(name: &str) -> (r: Self)
        ensures
            r.name@ == name@,
    {
        Variable { name: name.to_owned() }
    }
}

impl Argument {
    pub fn new(name: &str, type_: Type) -> (r: Self)
        ensures
            r.name@ == name@,
            r.type_ == type_,
    {
        Argument { name: name.to_owned(), type_ }
    }
}

impl Constructor {
    pub fn new(algebraic_type: Algebraic, index: u64) -> (r: Self)
        ensures
            r.algebraic_type == algebraic_type,
            r.index == index,
    {
        Constructor { algebraic_type, index }
    }
}

impl AlgebraicAlternative {
    pub fn new(constructor: Constructor, element_names: Vec<String>, expression: Expression) -> (r:
        Self)
        ensures
            r.constructor == constructor,
            r.element_names == element_names,
            r.expression == expression,
    {
        AlgebraicAlternative { constructor, element_names, expression }
    }
}

impl AlgebraicCase {
    pub fn new(
        argument: Expression,
        alternatives: Vec<AlgebraicAlternative>,
        default_alternative: Option<Expression>,
    ) -> (r: Self)
        ensures
            *r.argument == argument,
            r.alternatives == alternatives,
            match (r.default_alternative, default_alternative) {
                (Some(a), Some(b)) => *a == b,
                (None, None) => true,
                _ => false,
            },
    {
        AlgebraicCase {
            argument: Box::new(argument),
            alternatives,
            default_alternative: match default_alternative {
                Some(d) => Some(Box::new(d)),
                None => None,
            },
        }
    }
}

impl PrimitiveAlternative {
    pub fn new(primitive: Primitive, expression: Expression) -> (r: Self)
        ensures
            r.primitive == primitive,
            r.expression == expression,
    {
        PrimitiveAlternative { primitive, expression }
    }
}

impl PrimitiveCase {
    pub fn new(
        argument: Expression,
        alternatives: Vec<PrimitiveAlternative>,
        default_alternative: Option<Expression>,
    ) -> (r: Self)
        ensures
            *r.argument == argument,
            r.alternatives == alternatives,
            match (r.default_alternative, default_alternative) {
                (Some(a), Some(b)) => *a == b,
                (None, None) => true,
                _ => false,
            },
    {
        PrimitiveCase {
            argument: Box::new(argument),
            alternatives,
            default_alternative: match default_alternative {
                Some(d) => Some(Box::new(d)),
                None => None,
            },
        }
    }
}

impl Bitcast {
    pub fn new(expression: Expression, type_: Type) -> (r: Self)
        ensures
            *r.expression == expression,
            r.type_ == type_,
    {
        Bitcast { expression: Box::new(expression), type_ }
    }
}

impl ConstructorApplication {
    pub fn new(constructor: Constructor, arguments: Vec<Expression>) -> (r: Self)
        ensures
            r.constructor == constructor,
            r.arguments == arguments,
    {
        ConstructorApplication { constructor, arguments }
    }
}

impl FunctionApplication {
    pub fn new(function: Expression, argument: Expression) -> (r: Self)
        ensures
            *r.function == function,
            *r.argument == argument,
    {
        FunctionApplication { function: Box::new(function), argument: Box::new(argument) }
    }
}

impl LetRecursive {
    pub fn new(definitions: Vec<FunctionDefinition>, expression: Expression) -> (r: Self)
        ensures
            r.definitions == definitions,
            *r.expression == expression,
    {
        LetRecursive { definitions, expression: Box::new(expression) }
    }
}

impl Let {
    pub fn new(name: &str, type_: Type, bound_expression: Expression, expression: Expression) -> (r:
        Self)
        ensures
            r.name@ == name@,
            r.type_ == type_,
            *r.bound_expression == bound_expression,
            *r.expression == expression,
    {
        Let {
            name: name.to_owned(),
            type_,
            bound_expression: Box::new(bound_expression),
            expression: Box::new(expression),
        }
    }
}

impl PrimitiveOperation {
    pub fn new(operator: PrimitiveOperator, lhs: Expression, rhs: Expression) -> (r: Self)
        ensures
            r.operator == operator,
            *r.lhs == lhs,
            *r.rhs == rhs,
    {
        PrimitiveOperation { operator, lhs: Box::new(lhs), rhs: Box::new(rhs) }
    }
}

impl Declaration {
    pub fn new(name: &str, type_: crate::types::Function) -> (r: Self)
        ensures
            r.name@ == name@,
            r.type_ == type_,
    {
        Declaration { name: name.to_owned(), type_ }
    }
}

impl ForeignDeclaration {
    pub fn new(name: &str, foreign_name: &str, type_: crate::types::Function) -> (r: Self)
        ensures
            r.name@ == name@,
            r.foreign_name@ == foreign_name@,
            r.type_ == type_,
    {
        ForeignDeclaration { name: name.to_owned(), foreign_name: foreign_name.to_owned(), type_ }
    }
}

} // verus!
