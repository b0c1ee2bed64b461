//! Stage system.

use core::marker::PhantomData;

use vstd::prelude::*;
use vstd::std_specs::cmp::PartialOrdSpec;

use crate::component::ComponentId;
use crate::storage::SparseSetIndex;

verus! {

/// Used to mark a stage by type.
#[derive(Debug, Copy)]
pub struct StageMarker<T: Send + Sync + 'static> {
    /// The stage.
    pub stage: Stage,
    /// Ties the marker to its type.
    pub _marker: PhantomData<T>,
}

impl<T: Send + Sync + 'static> Clone for StageMarker<T> {
    fn clone(&self) -> (marker: Self)
        ensures
            marker == *self,
    {
        Self { stage: self.stage, _marker: PhantomData }
    }
}

impl<T: Send + Sync + 'static> StageMarker<T> {
    /// Creates a new `StageMarker` wrapping the given stage.
    pub fn new(stage: Stage) -> (marker: Self)
        ensures
            marker.stage == stage,
    {
        Self { stage, _marker: PhantomData }
    }
}

/// World can have a sequence of stages.
/// Components added in previous stages are immutable,
/// components added in later stages are not visible,
/// and only components added in the current stage can be modified or removed.
#[derive(Copy, Clone, Debug, Hash, PartialEq, Eq, Structural, Ord)]
pub struct Stage {
    stage: u16,
}

impl View for Stage {
    type V = u16;

    /// The number of the stage.
    closed spec fn view(&self) -> u16 {
        self.stage
    }
}

/// Stages are ordered by their numbers.
impl PartialOrd for Stage {
    fn partial_cmp(&self, other: &Stage) -> (r: Option<core::cmp::Ordering>) {
        if self.stage < other.stage {
            Some(core::cmp::Ordering::Less)
        } else if self.stage == other.stage {
            Some(core::cmp::Ordering::Equal)
        } else {
            Some(core::cmp::Ordering::Greater)
        }
    }
}

impl vstd::std_specs::cmp::PartialOrdSpecImpl for Stage {
    open spec fn obeys_partial_cmp_spec() -> bool {
        true
    }

    open spec fn partial_cmp_spec(&self, other: &Stage) -> Option<core::cmp::Ordering> {
        if self@ < other@ {
            Some(core::cmp::Ordering::Less)
        } else if self@ == other@ {
            Some(core::cmp::Ordering::Equal)
        } else {
            Some(core::cmp::Ordering::Greater)
        }
    }
}

impl Default for Stage {
    /// The first stage, number zero.
    fn default() -> (s: Self)
        ensures
            s@ == 0,
    {
        Stage { stage: 0 }
    }
}

impl SparseSetIndex for Stage {
    /// A stage sits in a sparse set at its own number.
    fn sparse_set_index(&self) -> (index: usize)
        ensures
            index == self@,
    {
        self.stage as usize
    }

    /// The stage at a sparse-set position: the position taken modulo the
    /// number of stages (its lowest sixteen bits).
    fn get_sparse_set_index(value: usize) -> (s: Self)
        ensures
            s@ == value % 0x10000,
    {
        let stage: u16 = value as u16;
        assert(value as u16 == value % 0x10000) by (bit_vector);
        Self { stage }
    }
}

impl Stage {
    /// The last stage, whose number is `u16::MAX`.
    pub fn last() -> (s: Stage)
        ensures
            s@ == u16::MAX,
    {
        Stage { stage: u16::MAX }
    }

    /// The stage numbered one more than `s`, wrapping past the last stage.
    pub closed spec fn successor(s: Stage) -> Stage {
        Stage { stage: (s.stage + 1) as u16 }
    }

    /// Creates a new [`Stage`] wrapping the given value.
    pub fn new(stage: u16) -> (s: Self)
        ensures
            s@ == stage,
    {
        Self { stage }
    }

    /// Returns the next stage.
    ///
    /// There is none after [`Stage::last()`].
    pub fn next(&self) -> (s: Self)
        requires
            self@ < u16::MAX,
        ensures
            s@ == self@ + 1,
    {
        Self { stage: self.stage + 1 }
    }

    /// Gets the value of this stage.
    pub fn get(self) -> (v: u16)
        ensures
            v == self@,
    {
        self.stage
    }

    /// Sets the value of this stage.
    pub fn set(&mut self, stage: u16)
        ensures
            final(self)@ == stage,
    {
        self.stage = stage;
    }
}

/// A unique identifier for a component at a specific stage.
#[derive(Hash, PartialEq, Eq, Structural, Clone, Copy, Ord, Debug)]
pub struct StageComponentId {
    /// The component ID.
    pub component_id: ComponentId,
    /// The stage.
    pub stage: Stage,
}

/// Ids are ordered by component type first, then by stage.
impl PartialOrd for StageComponentId {
    fn partial_cmp(&self, other: &StageComponentId) -> (r: Option<core::cmp::Ordering>) {
        let (c, d) = (self.component_id.index(), other.component_id.index());
        if c < d {
            Some(core::cmp::Ordering::Less)
        } else if c > d {
            Some(core::cmp::Ordering::Greater)
        } else {
            self.stage.partial_cmp(&other.stage)
        }
    }
}

impl vstd::std_specs::cmp::PartialOrdSpecImpl for StageComponentId {
    open spec fn obeys_partial_cmp_spec() -> bool {
        true
    }

    open spec fn partial_cmp_spec(&self, other: &StageComponentId) -> Option<core::cmp::Ordering> {
        if self.component_id@ < other.component_id@ {
            Some(core::cmp::Ordering::Less)
        } else if self.component_id@ > other.component_id@ {
            Some(core::cmp::Ordering::Greater)
        } else {
            PartialOrdSpec::partial_cmp_spec(&self.stage, &other.stage)
        }
    }
}

impl StageComponentId {
    /// Creates a new `StageComponentId` with the given component ID and stage.
    pub fn new(component_id: ComponentId, stage: Stage) -> (id: Self)
        ensures
            id.component_id == component_id,
            id.stage == stage,
    {
        Self { component_id, stage }
    }
}

impl ComponentId {
    /// Creates a `StageComponentId` at the given stage.
    pub fn at_stage(self, stage: Stage) -> (id: StageComponentId)
        ensures
            id.component_id == self,
            id.stage == stage,
    {
        StageComponentId { component_id: self, stage }
    }
}

/// Two stages are the same exactly when their numbers are.
pub proof fn stage_number_identifies(a: Stage, b: Stage)
    ensures
        (a@ == b@) == (a == b),
{
}

/// A stage is rebuilt from its own sparse-set position.
pub proof fn sparse_set_index_round_trip(s: Stage, rebuilt: Stage)
    requires
        rebuilt@ == (s@ as int) % 0x10000,
    ensures
        rebuilt == s,
{
}

/// A sparse-set position that names a stage is that stage's position.
pub proof fn sparse_set_position_round_trip(position: usize, s: Stage)
    requires
        position <= u16::MAX,
        s@ == position % 0x10000,
    ensures
        s@ == position,
{
}

/// The stage after a stage comes right after it: later than it, and no
/// later than any other stage that comes after it.
pub proof fn next_is_successor(s: Stage, n: Stage)
    requires
        n@ == s@ + 1,
    ensures
        PartialOrdSpec::partial_cmp_spec(&s, &n) == Some(core::cmp::Ordering::Less),
        s != n,
        forall|t: Stage|
            #[trigger] PartialOrdSpec::partial_cmp_spec(&s, &t) == Some(core::cmp::Ordering::Less)
                ==> PartialOrdSpec::partial_cmp_spec(&n, &t) != Some(core::cmp::Ordering::Greater),
        n == Stage::successor(s),
{
}

/// Taking the next stage keeps how two stages compare, and keeps them
/// distinct or equal.
pub proof fn next_keeps_order(a: Stage, a_next: Stage, b: Stage, b_next: Stage)
    requires
        a_next@ == a@ + 1,
        b_next@ == b@ + 1,
    ensures
        PartialOrdSpec::partial_cmp_spec(&a_next, &b_next) == PartialOrdSpec::partial_cmp_spec(&a, &b),
        (a_next == b_next) == (a == b),
{
}

/// Sparse-set positions of stages are ordered as the stages are.
pub proof fn sparse_set_index_keeps_order(a: Stage, a_index: usize, b: Stage, b_index: usize)
    requires
        a_index == a@,
        b_index == b@,
    ensures
        (PartialOrdSpec::partial_cmp_spec(&a, &b) == Some(core::cmp::Ordering::Less)) == (a_index < b_index),
        (PartialOrdSpec::partial_cmp_spec(&a, &b) == Some(core::cmp::Ordering::Equal)) == (a_index == b_index),
{
}

/// Ids compare by component type first, and by stage between ids of the
/// same component type.
pub proof fn stage_component_id_order(x: StageComponentId, y: StageComponentId)
    ensures
        PartialOrdSpec::partial_cmp_spec(&x, &y) == (if PartialOrdSpec::partial_cmp_spec(&x.component_id, &y.component_id) == Some(
            core::cmp::Ordering::Equal,
        ) {
            PartialOrdSpec::partial_cmp_spec(&x.stage, &y.stage)
        } else {
            PartialOrdSpec::partial_cmp_spec(&x.component_id, &y.component_id)
        }),
{
}

/// Ids of one component type at two stages compare as the stages do, and
/// are equal exactly when the stages are.
pub proof fn at_stage_keeps_order(
    c: ComponentId,
    s1: Stage,
    s2: Stage,
    x1: StageComponentId,
    x2: StageComponentId,
)
    requires
        x1.component_id == c && x1.stage == s1,
        x2.component_id == c && x2.stage == s2,
    ensures
        PartialOrdSpec::partial_cmp_spec(&x1, &x2) == PartialOrdSpec::partial_cmp_spec(&s1, &s2),
        (x1 == x2) == (s1 == s2),
{
}

/// The stage reached from `start` by `steps` calls of `next`.
pub open spec fn after_steps(start: Stage, steps: nat) -> Stage
    decreases steps,
{
    if steps == 0 {
        start
    } else {
        Stage::successor(after_steps(start, (steps - 1) as nat))
    }
}

/// The stages form one sequence: from the first stage, number zero (the
/// default one), every call of `next` up to the last stage is allowed, and
/// `n` calls reach stage number `n`.
pub proof fn stages_follow_from_first(first: Stage, n: nat)
    requires
        first@ == 0,
        n <= u16::MAX,
    ensures
        forall|k: nat| k < n ==> (#[trigger] after_steps(first, k))@ < u16::MAX,
        after_steps(first, n)@ == n,
    decreases n,
{
    if n > 0 {
        stages_follow_from_first(first, (n - 1) as nat);
        assert forall|k: nat| k < n implies (#[trigger] after_steps(first, k))@ < u16::MAX by {
            if k < n - 1 {
            } else {
                assert(k == n - 1);
            }
        }
    }
}

/// Any two stages compare, in the order of their numbers: the one with the
/// smaller number is less, equal stages are equal, the one with the larger
/// number is greater, and swapping the two reverses the answer.
pub proof fn stage_order_is_total(a: Stage, b: Stage)
    ensures
        PartialOrdSpec::partial_cmp_spec(&a, &b) is Some,
        (PartialOrdSpec::partial_cmp_spec(&a, &b) == Some(core::cmp::Ordering::Less)) == (a@ < b@),
        (PartialOrdSpec::partial_cmp_spec(&a, &b) == Some(core::cmp::Ordering::Equal)) == (a == b),
        (PartialOrdSpec::partial_cmp_spec(&a, &b) == Some(core::cmp::Ordering::Greater)) == (b@ < a@),
        (PartialOrdSpec::partial_cmp_spec(&b, &a) == Some(core::cmp::Ordering::Less)) == (
        PartialOrdSpec::partial_cmp_spec(&a, &b) == Some(core::cmp::Ordering::Greater)),
{
}

/// Any two ids compare: by component index first, then by stage number;
/// they are equal exactly when both parts are, and swapping the two
/// reverses the answer.
pub proof fn stage_component_id_order_is_total(x: StageComponentId, y: StageComponentId)
    ensures
        PartialOrdSpec::partial_cmp_spec(&x, &y) is Some,
        (PartialOrdSpec::partial_cmp_spec(&x, &y) == Some(core::cmp::Ordering::Less)) == (
        x.component_id@ < y.component_id@ || (x.component_id@ == y.component_id@ && x.stage@
            < y.stage@)),
        (PartialOrdSpec::partial_cmp_spec(&x, &y) == Some(core::cmp::Ordering::Equal)) == (x == y),
        (PartialOrdSpec::partial_cmp_spec(&x, &y) == Some(core::cmp::Ordering::Greater)) == (
        y.component_id@ < x.component_id@ || (x.component_id@ == y.component_id@ && y.stage@
            < x.stage@)),
{
    crate::component::component_index_identifies(x.component_id, y.component_id);
}

} // verus!
