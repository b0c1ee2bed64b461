//! Component identifiers.

use vstd::prelude::*;

verus! {

/// Identifies a component type of a world; its index addresses sparse sets.
#[derive(Copy, Clone, Debug, Hash, PartialEq, Eq, Structural, Ord)]
pub struct ComponentId(usize);

impl View for ComponentId {
    type V = usize;

    /// The index of the component type.
    closed spec fn view(&self) -> usize {
        self.0
    }
}

impl ComponentId {
    /// Creates a new [`ComponentId`] with the given index.
    pub fn new(index: usize) -> (id: ComponentId)
        ensures
            id@ == index,
    {
        ComponentId(index)
    }

    /// Returns the index of this component type.
    pub fn index(self) -> (index: usize)
        ensures
            index == self@,
    {
        self.0
    }
}

/// Component types are ordered by their indices.
impl PartialOrd for ComponentId {
    fn partial_cmp(&self, other: &ComponentId) -> (r: Option<core::cmp::Ordering>) {
        if self.0 < other.0 {
            Some(core::cmp::Ordering::Less)
        } else if self.0 == other.0 {
            Some(core::cmp::Ordering::Equal)
        } else {
            Some(core::cmp::Ordering::Greater)
        }
    }
}

impl vstd::std_specs::cmp::PartialOrdSpecImpl for ComponentId {
    open spec fn obeys_partial_cmp_spec() -> bool {
        true
    }

    open spec fn partial_cmp_spec(&self, other: &ComponentId) -> Option<core::cmp::Ordering> {
        if self@ < other@ {
            Some(core::cmp::Ordering::Less)
        } else if self@ == other@ {
            Some(core::cmp::Ordering::Equal)
        } else {
            Some(core::cmp::Ordering::Greater)
        }
    }
}

/// Two component types are the same exactly when their indices are.
pub proof fn component_index_identifies(a: ComponentId, b: ComponentId)
    ensures
        (a@ == b@) == (a == b),
{
}

/// Any two component types compare, in the order of their indices, and
/// swapping the two reverses the answer.
pub proof fn component_order_is_total(a: ComponentId, b: ComponentId)
    ensures
        vstd::std_specs::cmp::PartialOrdSpec::partial_cmp_spec(&a, &b) is Some,
        (vstd::std_specs::cmp::PartialOrdSpec::partial_cmp_spec(&a, &b) == Some(
            core::cmp::Ordering::Less,
        )) == (a@ < b@),
        (vstd::std_specs::cmp::PartialOrdSpec::partial_cmp_spec(&a, &b) == Some(
            core::cmp::Ordering::Equal,
        )) == (a == b),
        (vstd::std_specs::cmp::PartialOrdSpec::partial_cmp_spec(&a, &b) == Some(
            core::cmp::Ordering::Greater,
        )) == (b@ < a@),
{
}

} // verus!
