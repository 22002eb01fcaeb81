use vstd::prelude::*;
use vstd::std_specs::convert::IntoSpec;

verus! {

/// One or two spellings of the same flag or option: a primary one and an
/// optional secondary one (empty when absent).
#[derive(Clone, Copy, Debug)]
pub struct Keys {
    first: &'static str,
    second: &'static str,
}

impl View for Keys {
    type V = (Seq<char>, Seq<char>);

    closed spec fn view(&self) -> (Seq<char>, Seq<char>) {
        (self.first@, self.second@)
    }
}

/// The spellings follow the dash conventions: the primary one starts with `-`;
/// when a secondary one is given, the primary one is short (not `--...`) and
/// the secondary one is long (`--...`).
pub open spec fn valid_keys(k: (Seq<char>, Seq<char>)) -> bool {
    &&& k.0.len() > 0
    &&& k.0[0] == '-'
    &&& k.1.len() > 0 ==> {
        &&& !(k.0.len() > 1 && k.0[1] == '-')
        &&& k.1.len() > 1
        &&& k.1[0] == '-'
        &&& k.1[1] == '-'
    }
}

impl Keys {
    /// The primary spelling.
    pub fn first(&self) -> (r: &'static str)
        ensures
            r@ == self@.0,
    {
        self.first
    }

    /// The secondary spelling, empty when there is none.
    pub fn second(&self) -> (r: &'static str)
        ensures
            r@ == self@.1,
    {
        self.second
    }
}

impl From<[&'static str; 2]> for Keys {
    fn from(v: [&'static str; 2]) -> (r: Keys) {
        Keys { first: v[0], second: v[1] }
    }
}

impl vstd::std_specs::convert::FromSpecImpl<[&'static str; 2]> for Keys {
    open spec fn obeys_from_spec() -> bool {
        true
    }

    closed spec fn from_spec(v: [&'static str; 2]) -> Keys {
        Keys { first: v@[0], second: v@[1] }
    }
}

impl From<&'static str> for Keys {
    fn from(v: &'static str) -> (r: Keys) {
        Keys { first: v, second: "" }
    }
}

impl vstd::std_specs::convert::FromSpecImpl<&'static str> for Keys {
    open spec fn obeys_from_spec() -> bool {
        true
    }

    closed spec fn from_spec(v: &'static str) -> Keys {
        Keys { first: v, second: "" }
    }
}

/// A single spelling becomes the primary one, with no secondary one.
pub proof fn lemma_keys_from_str(v: &'static str)
    ensures
        <&'static str as IntoSpec<Keys>>::obeys_into_spec(),
        <&'static str as IntoSpec<Keys>>::into_spec(v)@ == (v@, ""@),
{
}

/// A pair of spellings becomes the primary and the secondary one, in order.
pub proof fn lemma_keys_from_pair(v: [&'static str; 2])
    ensures
        <[&'static str; 2] as IntoSpec<Keys>>::obeys_into_spec(),
        <[&'static str; 2] as IntoSpec<Keys>>::into_spec(v)@ == (v@[0]@, v@[1]@),
{
}

} // verus!
