//! The table of loaded levels: which entity stands for each level that is loaded. The table
//! is the hash map of `bevy::utils`, whose type the verifier cannot be told of: it is kept
//! behind a struct that hides it, and what is stated of its methods here is believed, not
//! proved.

use crate::tilemap::model::Entity;
use vstd::prelude::*;

verus! {

/// The entity of each loaded level, by the level's name.
#[verifier::external_body]
pub struct LoadedLevels {
    table: bevy::utils::HashMap<String, u64>,
}

/// What the table holds: the bits of the entity of each loaded level.
pub uninterp spec fn loaded_levels(levels: LoadedLevels) -> Map<Seq<char>, u64>;

/// Whether `entities` names the entities that `levels` holds, and no other.
pub open spec fn holds_values_of(entities: Seq<Entity>, levels: Map<Seq<char>, u64>) -> bool {
    forall|entity: Entity|
        #![trigger entities.contains(entity)]
        entities.contains(entity) <==> exists|level: Seq<char>|
            #![trigger levels[level]]
            levels.contains_key(level) && levels[level] == entity.bits
}

impl LoadedLevels {
    /// Calls `bevy::utils::HashMap::default`: a map with no entry.
    #[verifier::external_body]
    pub(crate) fn new() -> (levels: LoadedLevels)
        ensures
            loaded_levels(levels).dom() == Set::<Seq<char>>::empty(),
    {
        LoadedLevels { table: bevy::utils::HashMap::default() }
    }

    /// Calls `HashMap::is_empty`: whether the map has no entry.
    #[verifier::external_body]
    pub(crate) fn is_empty(&self) -> (empty: bool)
        ensures
            empty == (loaded_levels(*self).dom() == Set::<Seq<char>>::empty()),
    {
        self.table.is_empty()
    }

    /// Calls `HashMap::contains_key`: whether the map has an entry for the key.
    #[verifier::external_body]
    pub(crate) fn contains_key(&self, level: &str) -> (found: bool)
        ensures
            found == loaded_levels(*self).contains_key(level@),
    {
        self.table.contains_key(level)
    }

    /// Calls `HashMap::insert`: the key's entry holds the new value afterwards, and the other
    /// entries are as before. The value that the key had is dropped.
    #[verifier::external_body]
    pub(crate) fn insert(&mut self, level: String, entity: Entity)
        ensures
            loaded_levels(*final(self)) == loaded_levels(*old(self)).insert(level@, entity.bits),
    {
        self.table.insert(level, entity.bits);
    }

    /// Calls `HashMap::remove`: the key has no entry afterwards, the other entries are as
    /// before, and the value that the key had is handed back.
    #[verifier::external_body]
    pub(crate) fn remove(&mut self, level: &str) -> (removed: Option<Entity>)
        ensures
            loaded_levels(*final(self)) == loaded_levels(*old(self)).remove(level@),
            removed == (if loaded_levels(*old(self)).contains_key(level@) {
                Some(Entity { bits: loaded_levels(*old(self))[level@] })
            } else {
                None
            }),
    {
        match self.table.remove(level) {
            Some(bits) => Some(Entity { bits }),
            None => None,
        }
    }

    /// Calls `HashMap::clear`: the map has no entry afterwards.
    #[verifier::external_body]
    pub(crate) fn clear(&mut self)
        ensures
            loaded_levels(*final(self)).dom() == Set::<Seq<char>>::empty(),
    {
        self.table.clear()
    }

    /// Calls `HashMap::values`: the value of each entry, once for each entry, in the order
    /// in which the map happens to walk its entries, of which nothing is said. The length is
    /// the number of entries.
    #[verifier::external_body]
    pub(crate) fn entities(&self) -> (values: Vec<Entity>)
        ensures
            values@.len() == loaded_levels(*self).dom().len(),
            holds_values_of(values@, loaded_levels(*self)),
    {
        self.table.values().map(|bits| Entity { bits: *bits }).collect()
    }
}

} // verus!
