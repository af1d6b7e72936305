use vstd::prelude::*;

verus! {

/// An account or contract address on the ledger, held as its strkey text
/// (for instance `G...` for an account, `C...` for a contract).
///
/// Two addresses are the same exactly when their strkey texts are equal, so
/// the view of an address is its text.
#[derive(Debug)]
pub struct Address {
    pub strkey: String,
}

impl View for Address {
    type V = Seq<char>;

    open spec fn view(&self) -> Seq<char> {
        self.strkey@
    }
}

impl Address {
    /// An address from its strkey text.
    pub fn new(strkey: &str) -> (a: Address)
        ensures
            a@ == strkey@,
    {
        Address { strkey: strkey.to_owned() }
    }

    /// A copy of this address.
    pub fn duplicate(&self) -> (a: Address)
        ensures
            a == *self,
    {
        Address { strkey: self.strkey.clone() }
    }

    /// Whether the two addresses are the same address.
    pub fn same(&self, other: &Address) -> (r: bool)
        ensures
            r == (self@ == other@),
    {
        self.strkey == other.strkey
    }
}

impl Clone for Address {
    fn clone(&self) -> (a: Self)
        ensures
            a == *self,
    {
        self.duplicate()
    }
}

impl PartialEq for Address {
    fn eq(&self, other: &Self) -> (r: bool) {
        self.same(other)
    }
}

impl Eq for Address {}

impl vstd::std_specs::cmp::PartialEqSpecImpl for Address {
    open spec fn obeys_eq_spec() -> bool {
        true
    }

    open spec fn eq_spec(&self, other: &Address) -> bool {
        self@ == other@
    }
}

/// A key of a [`crate::keyed_map::KeyedMap`]: keys are told apart by their views.
pub trait MapKey: View + Sized {
    /// Whether the two keys have the same view.
    fn same_key(&self, other: &Self) -> (r: bool)
        ensures
            r == (self@ == other@),
    ;

    /// A copy of the key, with the same view.
    fn copy_key(&self) -> (k: Self)
        ensures
            k@ == self@,
    ;
}

impl MapKey for Address {
    fn same_key(&self, other: &Self) -> (r: bool) {
        self.same(other)
    }

    fn copy_key(&self) -> (k: Self) {
        self.duplicate()
    }
}

impl MapKey for (Address, Address) {
    fn same_key(&self, other: &Self) -> (r: bool) {
        self.0.same(&other.0) && self.1.same(&other.1)
    }

    fn copy_key(&self) -> (k: Self) {
        (self.0.duplicate(), self.1.duplicate())
    }
}

impl MapKey for (Address, u32) {
    fn same_key(&self, other: &Self) -> (r: bool) {
        self.0.same(&other.0) && self.1 == other.1
    }

    fn copy_key(&self) -> (k: Self) {
        (self.0.duplicate(), self.1)
    }
}

} // verus!
