//! The type of a function called through the foreign function interface.
use crate::types::{view_types, lemma_view_types, Type, TypeV};
use vstd::prelude::*;

verus! {

pub struct FfiFunctionType {
    name: String,
    arguments: Vec<Type>,
    result: Type,
}

pub struct FfiFunctionTypeV {
    pub name: Seq<char>,
    pub arguments: Seq<TypeV>,
    pub result: TypeV,
}

impl View for FfiFunctionType {
    type V = FfiFunctionTypeV;

    closed spec fn view(&self) -> FfiFunctionTypeV {
        FfiFunctionTypeV {
            name: self.name@,
            arguments: view_types(self.arguments@),
            result: self.result@,
        }
    }
}

impl FfiFunctionType {
    pub fn new(name: &str, arguments: Vec<Type>, result: Type) -> (r: Self)
        ensures
            r@ == (FfiFunctionTypeV {
                name: name@,
                arguments: view_types(arguments@),
                result: result@,
            }),
    {
        FfiFunctionType { name: name.to_owned(), arguments, result }
    }

    pub fn name(&self) -> (r: &str)
        ensures
            r@ == self@.name,
    {
        self.name.as_str()
    }

    pub fn arguments(&self) -> (r: &[Type])
        ensures
            view_types(r@) == self@.arguments,
    {
        self.arguments.as_slice()
    }

    pub fn result(&self) -> (r: &Type)
        ensures
            r@ == self@.result,
    {
        &self.result
    }
}

} // verus!
