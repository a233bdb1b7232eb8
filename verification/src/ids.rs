//! Dimensions, regions and the table of dimensions that a pass decides against.

use std::collections::HashMap;
use vstd::prelude::*;

verus! {

broadcast use vstd::std_specs::hash::group_hash_axioms;

/// The identifier of the dimension that every entity belongs to unless something
/// attributes it elsewhere.
pub const DEFAULT_DIMENSION: u64 = 0;

/// A dimension's identifier.
#[derive(Clone, Copy, Debug, PartialEq, Eq, Structural)]
pub struct DimensionId(pub u64);

/// The default dimension, as a value of contracts.
pub open spec fn default_dimension() -> DimensionId {
    DimensionId(DEFAULT_DIMENSION)
}

impl DimensionId {
    /// The default dimension.
    pub fn default_id() -> (id: DimensionId)
        ensures
            id == default_dimension(),
    {
        DimensionId(DEFAULT_DIMENSION)
    }
}

impl Default for DimensionId {
    fn default() -> (id: DimensionId)
        ensures
            id == default_dimension(),
    {
        DimensionId(DEFAULT_DIMENSION)
    }
}

/// Where a dimension stands between its creation and its removal.
#[derive(Clone, Copy, Debug, PartialEq, Eq, Structural)]
pub enum DimensionLifecycle {
    Spinup,
    Active,
    Draining,
    Teardown,
}

/// What the registry says of one dimension: its lifecycle, and the entity that every
/// mirror in it hangs under.
#[derive(Clone, Copy, Debug, PartialEq, Eq, Structural)]
pub struct DimensionState {
    pub lifecycle: DimensionLifecycle,
    pub root: u64,
}

impl DimensionState {
    /// Only an active dimension takes entrants that were not in it before.
    pub open spec fn admits(self) -> bool {
        self.lifecycle == DimensionLifecycle::Active
    }

    /// Whether something new may enter this dimension.
    pub fn accepts_new_entrants(&self) -> (accepts: bool)
        ensures
            accepts == self.admits(),
    {
        self.lifecycle == DimensionLifecycle::Active
    }
}

/// The dimensions that the registry holds at the start of a pass.
pub struct DimensionTable {
    entries: HashMap<u64, DimensionState>,
}

impl View for DimensionTable {
    type V = Map<u64, DimensionState>;

    closed spec fn view(&self) -> Map<u64, DimensionState> {
        self.entries@
    }
}

/// What a table says of a dimension: `None` where it holds none of that identifier.
pub open spec fn lookup(table: Map<u64, DimensionState>, id: DimensionId) -> Option<DimensionState> {
    if table.contains_key(id.0) {
        Some(table[id.0])
    } else {
        None
    }
}

/// Whether a dimension is in the table and active.
pub open spec fn admits(table: Map<u64, DimensionState>, id: DimensionId) -> bool {
    table.contains_key(id.0) && table[id.0].admits()
}

impl DimensionTable {
    /// A table without dimensions.
    pub fn new() -> (table: DimensionTable)
        ensures
            table@ == Map::<u64, DimensionState>::empty(),
    {
        DimensionTable { entries: HashMap::new() }
    }

    /// Enters a dimension, in place of what stood under its identifier.
    pub fn set(&mut self, id: DimensionId, state: DimensionState)
        ensures
            final(self)@ == old(self)@.insert(id.0, state),
    {
        self.entries.insert(id.0, state);
    }

    /// What is known of a dimension.
    pub fn get(&self, id: DimensionId) -> (state: Option<DimensionState>)
        ensures
            state == lookup(self@, id),
    {
        match self.entries.get(&id.0) {
            Some(state) => Some(*state),
            None => None,
        }
    }

    /// Whether something new may enter this dimension.
    pub fn accepts(&self, id: DimensionId) -> (accepts: bool)
        ensures
            accepts == admits(self@, id),
    {
        match self.get(id) {
            Some(state) => state.accepts_new_entrants(),
            None => false,
        }
    }
}

/// One cell of the interest grid of one dimension.
#[derive(Clone, Copy, Debug, PartialEq, Eq, Structural)]
pub struct RegionKey {
    pub dimension: DimensionId,
    pub cell_x: i32,
    pub cell_y: i32,
}

/// A table tells of exactly the dimensions that it holds, each as it was entered, and lets
/// entrants into the active ones among them alone.
pub proof fn law_table_tells_what_it_holds(table: Map<u64, DimensionState>, id: DimensionId)
    ensures
        lookup(table, id) is Some <==> table.contains_key(id.0),
        lookup(table, id) is Some ==> lookup(table, id)->0 == table[id.0],
        admits(table, id) <==> lookup(table, id) is Some && lookup(table, id)->0.lifecycle is Active,
{
}

} // verus!
