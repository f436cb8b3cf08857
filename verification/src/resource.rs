//! The basic resource kinds an explorer can mine.
use vstd::prelude::*;

verus! {

/// Number of basic resource kinds.
pub const KIND_COUNT: u8 = 4;

/// One basic resource kind.
///
/// Each kind has a code below `KIND_COUNT`; collections keyed by kind hold
/// these codes. The codes follow the alphabetical order of the kinds'
/// names, which is the order their `Debug` text sorts in.
#[derive(Clone, Copy, PartialEq, Eq, Structural, Debug, Hash)]
pub enum ResourceKind {
    Oxygen,
    Hydrogen,
    Carbon,
    Silicon,
}

/// The kind whose code is `c`, if `c` is a code.
pub open spec fn kind_of_code(c: u8) -> Option<ResourceKind> {
    if c == 0 {
        Some(ResourceKind::Carbon)
    } else if c == 1 {
        Some(ResourceKind::Hydrogen)
    } else if c == 2 {
        Some(ResourceKind::Oxygen)
    } else if c == 3 {
        Some(ResourceKind::Silicon)
    } else {
        None
    }
}

impl ResourceKind {
    /// The code of this kind: its position in the alphabetical order of names.
    pub open spec fn spec_code(self) -> u8 {
        match self {
            ResourceKind::Carbon => 0,
            ResourceKind::Hydrogen => 1,
            ResourceKind::Oxygen => 2,
            ResourceKind::Silicon => 3,
        }
    }

    /// The kind's name, as its `Debug` text prints it.
    pub open spec fn spec_name(self) -> Seq<char> {
        match self {
            ResourceKind::Carbon => "Carbon"@,
            ResourceKind::Hydrogen => "Hydrogen"@,
            ResourceKind::Oxygen => "Oxygen"@,
            ResourceKind::Silicon => "Silicon"@,
        }
    }

    #[verifier::when_used_as_spec(spec_code)]
    pub fn code(self) -> (c: u8)
        ensures
            c == self.spec_code(),
            c < KIND_COUNT,
    {
        match self {
            ResourceKind::Carbon => 0,
            ResourceKind::Hydrogen => 1,
            ResourceKind::Oxygen => 2,
            ResourceKind::Silicon => 3,
        }
    }

    /// The kind whose code is `c`; `None` where `c` is no kind's code.
    pub fn from_code(c: u8) -> (r: Option<ResourceKind>)
        ensures
            r == kind_of_code(c),
            r is Some <==> c < KIND_COUNT,
            r matches Some(k) ==> k.code() == c,
    {
        if c == 0 {
            Some(ResourceKind::Carbon)
        } else if c == 1 {
            Some(ResourceKind::Hydrogen)
        } else if c == 2 {
            Some(ResourceKind::Oxygen)
        } else if c == 3 {
            Some(ResourceKind::Silicon)
        } else {
            None
        }
    }
}

/// Codes and kinds are in one-to-one correspondence.
pub proof fn lemma_code_bijective(a: ResourceKind, b: ResourceKind)
    ensures
        a.code() == b.code() <==> a == b,
        kind_of_code(a.code()) == Some(a),
        a.code() < KIND_COUNT,
{
}

/// The code order is the order of the names: the names of distinct kinds
/// already differ in their first letter, and a smaller code goes with a
/// smaller first letter.
pub proof fn lemma_code_follows_name_order(a: ResourceKind, b: ResourceKind)
    ensures
        a.spec_name().len() > 0,
        a.code() < b.code() <==> a.spec_name()[0] < b.spec_name()[0],
{
    reveal_strlit("Carbon");
    reveal_strlit("Hydrogen");
    reveal_strlit("Oxygen");
    reveal_strlit("Silicon");
}

} // verus!
