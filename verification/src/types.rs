//! Types of the language: primitives, curried functions and algebraic data
//! types whose constructors may refer back to an enclosing algebraic type by
//! a de Bruijn style index.
use vstd::prelude::*;

verus! {

broadcast use vstd::std_specs::vec::group_vec_axioms;

/// Primitive types.
#[derive(Clone, Copy, Debug, PartialEq, Eq, Structural)]
pub enum Primitive {
    Float32,
    Float64,
    Integer8,
    Integer32,
    Integer64,
}

/// A type. `Index(n)` refers to the `n`-th enclosing algebraic type.
#[derive(Debug, PartialEq)]
pub enum Type {
    Algebraic(Algebraic),
    Function(Function),
    Index(u64),
    Primitive(Primitive),
}

/// A function type taking one argument (functions of several arguments are
/// curried).
#[derive(Debug, PartialEq)]
pub struct Function {
    pub argument: Box<Type>,
    pub result: Box<Type>,
}

/// An algebraic data type given by its constructors.
#[derive(Debug, PartialEq)]
pub struct Algebraic {
    pub constructors: Vec<Constructor>,
}

/// A constructor of an algebraic data type: its payload and whether the
/// payload is boxed.
#[derive(Debug, PartialEq)]
pub struct Constructor {
    pub elements: Vec<Type>,
    pub boxed: bool,
}

/// Mathematical model of a type.
pub enum TypeV {
    Algebraic(Seq<ConstructorV>),
    Function(Box<TypeV>, Box<TypeV>),
    Index(nat),
    Primitive(Primitive),
}

/// Mathematical model of a constructor type.
pub struct ConstructorV {
    pub elements: Seq<TypeV>,
    pub boxed: bool,
}

pub open spec fn view_type(t: Type) -> TypeV
    decreases t,
{
    match t {
        Type::Algebraic(a) => TypeV::Algebraic(view_constructors(a.constructors@)),
        Type::Function(f) => TypeV::Function(
            Box::new(view_type(*f.argument)),
            Box::new(view_type(*f.result)),
        ),
        Type::Index(i) => TypeV::Index(i as nat),
        Type::Primitive(p) => TypeV::Primitive(p),
    }
}

pub open spec fn view_constructor(c: Constructor) -> ConstructorV
    decreases c,
{
    ConstructorV { elements: view_types(c.elements@), boxed: c.boxed }
}

pub open spec fn view_constructors(s: Seq<Constructor>) -> Seq<ConstructorV>
    decreases s,
{
    if s.len() == 0 {
        Seq::empty()
    } else {
        view_constructors(s.subrange(0, s.len() - 1)).push(view_constructor(s[s.len() - 1]))
    }
}

pub open spec fn view_types(s: Seq<Type>) -> Seq<TypeV>
    decreases s,
{
    if s.len() == 0 {
        Seq::empty()
    } else {
        view_types(s.subrange(0, s.len() - 1)).push(view_type(s[s.len() - 1]))
    }
}

pub proof fn lemma_view_types(s: Seq<Type>)
    ensures
        view_types(s).len() == s.len(),
        forall|i: int| 0 <= i < s.len() ==> #[trigger] view_types(s)[i] == view_type(s[i]),
    decreases s.len(),
{
    if s.len() > 0 {
        lemma_view_types(s.subrange(0, s.len() - 1));
    }
}

pub proof fn lemma_view_constructors(s: Seq<Constructor>)
    ensures
        view_constructors(s).len() == s.len(),
        forall|i: int|
            0 <= i < s.len() ==> #[trigger] view_constructors(s)[i] == view_constructor(s[i]),
    decreases s.len(),
{
    if s.len() > 0 {
        lemma_view_constructors(s.subrange(0, s.len() - 1));
    }
}

impl View for Type {
    type V = TypeV;

    open spec fn view(&self) -> TypeV {
        view_type(*self)
    }
}

impl View for Function {
    type V = TypeV;

    open spec fn view(&self) -> TypeV {
        TypeV::Function(Box::new(view_type(*self.argument)), Box::new(view_type(*self.result)))
    }
}

impl View for Algebraic {
    type V = Seq<ConstructorV>;

    open spec fn view(&self) -> Seq<ConstructorV> {
        view_constructors(self.constructors@)
    }
}

impl View for Constructor {
    type V = ConstructorV;

    open spec fn view(&self) -> ConstructorV {
        view_constructor(*self)
    }
}

impl Clone for Type {
    fn clone(&self) -> (r: Self)
        ensures
            r@ == self@,
        decreases self,
    {
        match self {
            Type::Algebraic(a) => Type::Algebraic(a.clone()),
            Type::Function(f) => Type::Function(f.clone()),
            Type::Index(i) => Type::Index(*i),
            Type::Primitive(p) => Type::Primitive(*p),
        }
    }
}

impl Clone for Function {
    fn clone(&self) -> (r: Self)
        ensures
            r@ == self@,
        decreases self,
    {
        Function {
            argument: Box::new((*self.argument).clone()),
            result: Box::new((*self.result).clone()),
        }
    }
}

impl Clone for Algebraic {
    fn clone(&self) -> (r: Self)
        ensures
            r@ == self@,
        decreases self,
    {
        let mut constructors: Vec<Constructor> = Vec::new();
        let n = self.constructors.len();
        for i in 0..n
            invariant
                n == self.constructors@.len(),
                constructors@.len() == i,
                forall|j: int|
                    0 <= j < i ==> #[trigger] view_constructor(constructors@[j]) == view_constructor(
                        self.constructors@[j],
                    ),
        {
            constructors.push(self.constructors[i].clone());
        }
        proof {
            lemma_view_constructors(constructors@);
            lemma_view_constructors(self.constructors@);
            assert(view_constructors(constructors@) =~= view_constructors(self.constructors@));
        }
        Algebraic { constructors }
    }
}

impl Clone for Constructor {
    fn clone(&self) -> (r: Self)
        ensures
            r@ == self@,
        decreases self,
    {
        let mut elements: Vec<Type> = Vec::new();
        let n = self.elements.len();
        for i in 0..n
            invariant
                n == self.elements@.len(),
                elements@.len() == i,
                forall|j: int|
                    0 <= j < i ==> #[trigger] view_type(elements@[j]) == view_type(
                        self.elements@[j],
                    ),
        {
            elements.push(self.elements[i].clone());
        }
        proof {
            lemma_view_types(elements@);
            lemma_view_types(self.elements@);
            assert(view_types(elements@) =~= view_types(self.elements@));
        }
        Constructor { elements, boxed: self.boxed }
    }
}


/// Replaces every index that refers to the algebraic type `depth` levels out
/// with that algebraic type itself.
pub open spec fn substitute_type(t: TypeV, depth: nat, algebraic: Seq<ConstructorV>) -> TypeV
    decreases t,
{
    match t {
        TypeV::Algebraic(cs) => TypeV::Algebraic(
            substitute_constructors(cs, depth + 1, algebraic),
        ),
        TypeV::Function(a, r) => TypeV::Function(
            Box::new(substitute_type(*a, depth, algebraic)),
            Box::new(substitute_type(*r, depth, algebraic)),
        ),
        TypeV::Index(i) => if i == depth {
            TypeV::Algebraic(algebraic)
        } else {
            TypeV::Index(i)
        },
        TypeV::Primitive(p) => TypeV::Primitive(p),
    }
}

pub open spec fn substitute_constructor(
    c: ConstructorV,
    depth: nat,
    algebraic: Seq<ConstructorV>,
) -> ConstructorV
    decreases c,
{
    ConstructorV { elements: substitute_types(c.elements, depth, algebraic), boxed: c.boxed }
}

pub open spec fn substitute_constructors(
    cs: Seq<ConstructorV>,
    depth: nat,
    algebraic: Seq<ConstructorV>,
) -> Seq<ConstructorV>
    decreases cs,
{
    if cs.len() == 0 {
        Seq::empty()
    } else {
        substitute_constructors(cs.subrange(0, cs.len() - 1), depth, algebraic).push(
            substitute_constructor(cs[cs.len() - 1], depth, algebraic),
        )
    }
}

pub open spec fn substitute_types(
    ts: Seq<TypeV>,
    depth: nat,
    algebraic: Seq<ConstructorV>,
) -> Seq<TypeV>
    decreases ts,
{
    if ts.len() == 0 {
        Seq::empty()
    } else {
        substitute_types(ts.subrange(0, ts.len() - 1), depth, algebraic).push(
            substitute_type(ts[ts.len() - 1], depth, algebraic),
        )
    }
}

/// The constructors of an algebraic type with its recursive references
/// replaced by the type itself (one level of unfolding).
pub open spec fn unfold(algebraic: Seq<ConstructorV>) -> Seq<ConstructorV> {
    substitute_constructors(algebraic, 0, algebraic)
}

/// The curried type of a function taking `arguments` and returning `result`.
pub open spec fn function_type(arguments: Seq<TypeV>, result: TypeV) -> TypeV
    decreases arguments.len(),
{
    if arguments.len() == 0 {
        result
    } else {
        TypeV::Function(
            Box::new(arguments[0]),
            Box::new(function_type(arguments.subrange(1, arguments.len() as int), result)),
        )
    }
}

pub proof fn lemma_substitute_constructors(
    cs: Seq<ConstructorV>,
    depth: nat,
    algebraic: Seq<ConstructorV>,
)
    ensures
        substitute_constructors(cs, depth, algebraic).len() == cs.len(),
        forall|i: int|
            0 <= i < cs.len() ==> #[trigger] substitute_constructors(cs, depth, algebraic)[i]
                == substitute_constructor(cs[i], depth, algebraic),
    decreases cs.len(),
{
    if cs.len() > 0 {
        lemma_substitute_constructors(cs.subrange(0, cs.len() - 1), depth, algebraic);
    }
}

pub proof fn lemma_substitute_types(ts: Seq<TypeV>, depth: nat, algebraic: Seq<ConstructorV>)
    ensures
        substitute_types(ts, depth, algebraic).len() == ts.len(),
        forall|i: int|
            0 <= i < ts.len() ==> #[trigger] substitute_types(ts, depth, algebraic)[i]
                == substitute_type(ts[i], depth, algebraic),
    decreases ts.len(),
{
    if ts.len() > 0 {
        lemma_substitute_types(ts.subrange(0, ts.len() - 1), depth, algebraic);
    }
}

/// Substitution at a depth beyond every machine index changes nothing.
proof fn lemma_substitute_beyond(t: Type, depth: nat, algebraic: Seq<ConstructorV>)
    requires
        depth > u64::MAX,
    ensures
        substitute_type(t@, depth, algebraic) == t@,
    decreases t,
{
    match t {
        Type::Algebraic(a) => {
            lemma_substitute_constructors_beyond(a.constructors@, depth + 1, algebraic);
        },
        Type::Function(f) => {
            lemma_substitute_beyond(*f.argument, depth, algebraic);
            lemma_substitute_beyond(*f.result, depth, algebraic);
        },
        _ => {},
    }
}

proof fn lemma_substitute_constructors_beyond(
    cs: Seq<Constructor>,
    depth: nat,
    algebraic: Seq<ConstructorV>,
)
    requires
        depth > u64::MAX,
    ensures
        substitute_constructors(view_constructors(cs), depth, algebraic) == view_constructors(cs),
    decreases cs,
{
    lemma_view_constructors(cs);
    lemma_substitute_constructors(view_constructors(cs), depth, algebraic);
    assert forall|i: int| 0 <= i < cs.len() implies #[trigger] substitute_constructor(
        view_constructors(cs)[i],
        depth,
        algebraic,
    ) == view_constructors(cs)[i] by {
        let c = cs[i];
        lemma_view_types(c.elements@);
        lemma_substitute_types(view_types(c.elements@), depth, algebraic);
        assert forall|j: int| 0 <= j < c.elements@.len() implies #[trigger] substitute_type(
            view_types(c.elements@)[j],
            depth,
            algebraic,
        ) == view_types(c.elements@)[j] by {
            lemma_substitute_beyond(c.elements@[j], depth, algebraic);
        }
        assert(substitute_types(view_types(c.elements@), depth, algebraic) =~= view_types(
            c.elements@,
        ));
    }
    assert(substitute_constructors(view_constructors(cs), depth, algebraic) =~= view_constructors(
        cs,
    ));
}


fn substitute(t: &Type, depth: u64, algebraic: &Algebraic) -> (r: Type)
    ensures
        r@ == substitute_type(t@, depth as nat, algebraic@),
    decreases t,
{
    match t {
        Type::Algebraic(a) => {
            if depth == u64::MAX {
                proof {
                    lemma_substitute_beyond(*t, depth as nat + 1, algebraic@);
                    reveal_with_fuel(substitute_type, 1);
                }
                let r = Type::Algebraic(a.clone());
                proof {
                    lemma_substitute_constructors_beyond(a.constructors@, depth as nat + 1, algebraic@);
                }
                r
            } else {
                Type::Algebraic(substitute_algebraic(a, depth + 1, algebraic))
            }
        },
        Type::Function(f) => Type::Function(
            Function {
                argument: Box::new(substitute(&f.argument, depth, algebraic)),
                result: Box::new(substitute(&f.result, depth, algebraic)),
            },
        ),
        Type::Index(i) => {
            if *i == depth {
                Type::Algebraic(algebraic.clone())
            } else {
                Type::Index(*i)
            }
        },
        Type::Primitive(p) => Type::Primitive(*p),
    }
}

fn substitute_algebraic(a: &Algebraic, depth: u64, algebraic: &Algebraic) -> (r: Algebraic)
    ensures
        r@ == substitute_constructors(a@, depth as nat, algebraic@),
    decreases a,
{
    let mut constructors: Vec<Constructor> = Vec::new();
    let n = a.constructors.len();
    for i in 0..n
        invariant
            n == a.constructors@.len(),
            constructors@.len() == i,
            forall|j: int|
                0 <= j < i ==> #[trigger] view_constructor(constructors@[j])
                    == substitute_constructor(
                    view_constructor(a.constructors@[j]),
                    depth as nat,
                    algebraic@,
                ),
    {
        let c = &a.constructors[i];
        let mut elements: Vec<Type> = Vec::new();
        let m = c.elements.len();
        for k in 0..m
            invariant
                m == c.elements@.len(),
                i < n,
                n == a.constructors@.len(),
                *c == a.constructors@[i as int],
                elements@.len() == k,
                forall|j: int|
                    0 <= j < k ==> #[trigger] view_type(elements@[j]) == substitute_type(
                        view_type(c.elements@[j]),
                        depth as nat,
                        algebraic@,
                    ),
        {
            elements.push(substitute(&c.elements[k], depth, algebraic));
        }
        proof {
            lemma_view_types(elements@);
            lemma_view_types(c.elements@);
            lemma_substitute_types(view_types(c.elements@), depth as nat, algebraic@);
            assert(view_types(elements@) =~= substitute_types(
                view_types(c.elements@),
                depth as nat,
                algebraic@,
            ));
        }
        constructors.push(Constructor { elements, boxed: c.boxed });
    }
    proof {
        lemma_view_constructors(constructors@);
        lemma_view_constructors(a.constructors@);
        lemma_substitute_constructors(a@, depth as nat, algebraic@);
        assert(view_constructors(constructors@) =~= substitute_constructors(
            a@,
            depth as nat,
            algebraic@,
        ));
    }
    Algebraic { constructors }
}

impl Type {
    /// Structural equality of types.
    pub fn equals(&self, other: &Type) -> (r: bool)
        ensures
            r == (self@ == other@),
        decreases self,
    {
        match (self, other) {
            (Type::Algebraic(a), Type::Algebraic(b)) => a.equals(b),
            (Type::Function(f), Type::Function(g)) => f.argument.equals(&g.argument)
                && f.result.equals(&g.result),
            (Type::Index(i), Type::Index(j)) => *i == *j,
            (Type::Primitive(p), Type::Primitive(q)) => *p == *q,
            _ => false,
        }
    }

    pub fn is_primitive(&self) -> (r: bool)
        ensures
            r == (self@ is Primitive),
    {
        match self {
            Type::Primitive(_) => true,
            _ => false,
        }
    }
}

impl Algebraic {
    pub fn new(constructors: Vec<Constructor>) -> (r: Self)
        ensures
            r.constructors == constructors,
    {
        Algebraic { constructors }
    }

    pub fn constructors(&self) -> (r: &[Constructor])
        ensures
            r@ == self.constructors@,
    {
        self.constructors.as_slice()
    }

    /// Structural equality of algebraic types.
    pub fn equals(&self, other: &Algebraic) -> (r: bool)
        ensures
            r == (self@ == other@),
        decreases self,
    {
        proof {
            lemma_view_constructors(self.constructors@);
            lemma_view_constructors(other.constructors@);
        }
        let n = self.constructors.len();
        if n != other.constructors.len() {
            return false;
        }
        for i in 0..n
            invariant
                n == self.constructors@.len(),
                n == other.constructors@.len(),
                view_constructors(self.constructors@).len() == n,
                view_constructors(other.constructors@).len() == n,
                forall|j: int|
                    0 <= j < n ==> #[trigger] view_constructors(self.constructors@)[j]
                        == view_constructor(self.constructors@[j]),
                forall|j: int|
                    0 <= j < n ==> #[trigger] view_constructors(other.constructors@)[j]
                        == view_constructor(other.constructors@[j]),
                forall|j: int|
                    0 <= j < i ==> #[trigger] view_constructor(self.constructors@[j])
                        == view_constructor(other.constructors@[j]),
        {
            if !self.constructors[i].equals(&other.constructors[i]) {
                assert(view_constructors(self.constructors@)[i as int] != view_constructors(
                    other.constructors@,
                )[i as int]);
                return false;
            }
        }
        assert(view_constructors(self.constructors@) =~= view_constructors(other.constructors@));
        true
    }

    /// The constructors with the recursive references to this type replaced
    /// by the type itself.
    pub fn unfold(&self) -> (r: Algebraic)
        ensures
            r@ == unfold(self@),
    {
        substitute_algebraic(self, 0, self)
    }
}

impl Constructor {
    pub fn boxed(elements: Vec<Type>) -> (r: Self)
        ensures
            r.elements == elements,
            r.boxed,
    {
        Constructor { elements, boxed: true }
    }

    pub fn unboxed(elements: Vec<Type>) -> (r: Self)
        ensures
            r.elements == elements,
            !r.boxed,
    {
        Constructor { elements, boxed: false }
    }

    pub fn elements(&self) -> (r: &[Type])
        ensures
            r@ == self.elements@,
    {
        self.elements.as_slice()
    }

    pub fn is_boxed(&self) -> (r: bool)
        ensures
            r == self.boxed,
    {
        self.boxed
    }

    /// Structural equality of constructor types.
    pub fn equals(&self, other: &Constructor) -> (r: bool)
        ensures
            r == (self@ == other@),
        decreases self,
    {
        proof {
            lemma_view_types(self.elements@);
            lemma_view_types(other.elements@);
        }
        if self.boxed != other.boxed {
            return false;
        }
        let n = self.elements.len();
        if n != other.elements.len() {
            return false;
        }
        for i in 0..n
            invariant
                n == self.elements@.len(),
                n == other.elements@.len(),
                view_types(self.elements@).len() == n,
                view_types(other.elements@).len() == n,
                forall|j: int|
                    0 <= j < n ==> #[trigger] view_types(self.elements@)[j] == view_type(
                        self.elements@[j],
                    ),
                forall|j: int|
                    0 <= j < n ==> #[trigger] view_types(other.elements@)[j] == view_type(
                        other.elements@[j],
                    ),
                forall|j: int|
                    0 <= j < i ==> #[trigger] view_type(self.elements@[j]) == view_type(
                        other.elements@[j],
                    ),
        {
            if !self.elements[i].equals(&other.elements[i]) {
                assert(view_types(self.elements@)[i as int] != view_types(other.elements@)[i as int]);
                return false;
            }
        }
        assert(view_types(self.elements@) =~= view_types(other.elements@));
        true
    }
}

impl Function {
    pub fn new(argument: Type, result: Type) -> (r: Self)
        ensures
            *r.argument == argument,
            *r.result == result,
    {
        Function { argument: Box::new(argument), result: Box::new(result) }
    }

    pub fn argument(&self) -> (r: &Type)
        ensures
            *r == *self.argument,
    {
        &self.argument
    }

    pub fn result(&self) -> (r: &Type)
        ensures
            *r == *self.result,
    {
        &self.result
    }
}

} // verus!
