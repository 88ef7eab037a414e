//! Names of the entry functions generated for closures.
use vstd::prelude::*;
use vstd::string::StringExecFns;

verus! {

/// The name of the entry function of the closure of a function.
pub open spec fn closure_entry_name(name: Seq<char>) -> Seq<char> {
    name + "_entry"@
}

pub fn generate_closure_entry_name(name: &str) -> (r: String)
    ensures
        r@ == closure_entry_name(name@),
{
    let mut entry = name.to_owned();
    entry.append("_entry");
    entry
}

/// Distinct functions get distinct entry functions.
pub proof fn closure_entry_name_is_injective(one: Seq<char>, other: Seq<char>)
    requires
        closure_entry_name(one) == closure_entry_name(other),
    ensures
        one == other,
{
    let suffix = "_entry"@;
    assert(closure_entry_name(one).len() == one.len() + suffix.len());
    assert(one.len() == other.len());
    assert(one =~= closure_entry_name(one).subrange(0, one.len() as int));
    assert(other =~= closure_entry_name(other).subrange(0, other.len() as int));
}

} // verus!
