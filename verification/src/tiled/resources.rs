//! The manager of Tiled maps and the table of their tilesets.

use crate::levels::{holds_values_of, loaded_levels, LoadedLevels};
use crate::tiled::xml::{TiledTilemap, TiledTileset};
use crate::tilemap::model::{Entity, TilemapTexture};
use vstd::prelude::*;

verus! {

/// Where the maps to load are found.
#[derive(Debug)]
pub struct TiledLoadConfig {
    pub map_path: Vec<String>,
}

/// A map as it was read: its name, the path it was read from, and its content.
#[derive(Debug)]
pub struct PackedTiledTilemap {
    pub name: String,
    pub path: String,
    pub xml: TiledTilemap,
}

/// A tileset as it was read, with the texture that it draws with.
#[derive(Debug)]
pub struct PackedTiledTileset {
    pub name: String,
    pub xml: TiledTileset,
    pub texture: TilemapTexture,
}

/// Why the manager refuses a call.
#[derive(Clone, Copy, Debug, PartialEq, Eq, Structural)]
pub enum TiledError {
    /// No maps were ever handed to the manager.
    NotInitialized,
}

/// The mathematical value of a [`TiledTilemapManger`].
pub struct TiledManagerView {
    /// How often maps were handed to the manager; 0 as long as none were.
    pub version: u32,
    /// The maps that were handed over last.
    pub cache: Seq<PackedTiledTilemap>,
    /// The bits of the entity of each loaded map, by the map's name.
    pub loaded: Map<Seq<char>, u64>,
}

/// Keeps the maps that were read and the entity of each map that is loaded.
pub struct TiledTilemapManger {
    pub(crate) version: u32,
    pub(crate) cache: Vec<PackedTiledTilemap>,
    pub(crate) loaded_levels: LoadedLevels,
}

impl View for TiledTilemapManger {
    type V = TiledManagerView;

    closed spec fn view(&self) -> TiledManagerView {
        TiledManagerView {
            version: self.version,
            cache: self.cache@,
            loaded: loaded_levels(self.loaded_levels),
        }
    }
}

/// The version that follows `version`: the next number, and 1 after the last one, so that 0
/// stays the mark of a manager that was never handed maps.
pub open spec fn next_version(version: u32) -> u32 {
    if version == u32::MAX {
        1
    } else {
        (version + 1) as u32
    }
}

impl TiledTilemapManger {
    /// A manager that holds no map.
    pub fn new() -> (manager: TiledTilemapManger)
        ensures
            manager@.version == 0,
            manager@.cache == Seq::<PackedTiledTilemap>::empty(),
            manager@.loaded.dom() == Set::<Seq<char>>::empty(),
    {
        TiledTilemapManger { version: 0, cache: Vec::new(), loaded_levels: LoadedLevels::new() }
    }

    /// Takes the maps that were read anew, in place of those it held.
    pub fn reload_xml(&mut self, maps: Vec<PackedTiledTilemap>)
        ensures
            final(self)@ == (TiledManagerView {
                version: next_version(old(self)@.version),
                cache: maps@,
                ..old(self)@
            }),
    {
        self.version = if self.version == u32::MAX {
            1
        } else {
            self.version + 1
        };
        self.cache = maps;
    }

    /// Loads the map `map_name`, for which the host has made the entity `loader`. `Ok(true)`
    /// says that the map counts as loaded now and `loader` is to carry out the loading;
    /// `Ok(false)` that the map was loaded already and nothing has changed.
    pub fn load(&mut self, map_name: String, loader: Entity) -> (loaded: Result<bool, TiledError>)
        ensures
            match loaded {
                Err(error) => {
                    &&& error == TiledError::NotInitialized
                    &&& old(self)@.version == 0
                    &&& final(self)@ == old(self)@
                },
                Ok(accepted) => {
                    &&& old(self)@.version != 0
                    &&& accepted == !old(self)@.loaded.contains_key(map_name@)
                    &&& final(self)@ == (TiledManagerView {
                        loaded: if accepted {
                            old(self)@.loaded.insert(map_name@, loader.bits)
                        } else {
                            old(self)@.loaded
                        },
                        ..old(self)@
                    })
                },
            },
    {
        if self.version == 0 {
            return Err(TiledError::NotInitialized);
        }
        if self.loaded_levels.contains_key(map_name.as_str()) {
            Ok(false)
        } else {
            self.loaded_levels.insert(map_name, loader);
            Ok(true)
        }
    }

    /// Unloads every map and loads `level` in their place, unless `level` is loaded already,
    /// in which case nothing changes and `Ok(None)` comes back. Otherwise the entities of
    /// the maps that were loaded come back: the host marks each for unloading, and `loader`
    /// carries out the loading.
    pub fn switch_to(&mut self, level: String, loader: Entity) -> (switched: Result<
        Option<Vec<Entity>>,
        TiledError,
    >)
        ensures
            match switched {
                Err(error) => {
                    &&& error == TiledError::NotInitialized
                    &&& old(self)@.version == 0
                    &&& final(self)@ == old(self)@
                },
                Ok(None) => {
                    &&& old(self)@.version != 0
                    &&& old(self)@.loaded.contains_key(level@)
                    &&& final(self)@ == old(self)@
                },
                Ok(Some(unloaded)) => {
                    &&& old(self)@.version != 0
                    &&& !old(self)@.loaded.contains_key(level@)
                    &&& holds_values_of(unloaded@, old(self)@.loaded)
                    &&& unloaded@.len() == old(self)@.loaded.dom().len()
                    &&& final(self)@ == (TiledManagerView {
                        loaded: Map::<Seq<char>, u64>::empty().insert(level@, loader.bits),
                        ..old(self)@
                    })
                },
            },
    {
        if self.version == 0 {
            return Err(TiledError::NotInitialized);
        }
        if self.loaded_levels.contains_key(level.as_str()) {
            return Ok(None);
        }
        let unloaded = self.unload_all();
        self.loaded_levels.insert(level, loader);
        Ok(Some(unloaded))
    }

    /// Unloads the map `level` and hands back its entity, which the host marks for unloading.
    /// Where the map is not loaded nothing changes.
    pub fn unload(&mut self, level: String) -> (unloaded: Option<Entity>)
        ensures
            unloaded == (if old(self)@.loaded.contains_key(level@) {
                Some(Entity { bits: old(self)@.loaded[level@] })
            } else {
                None
            }),
            final(self)@ == (TiledManagerView {
                loaded: old(self)@.loaded.remove(level@),
                ..old(self)@
            }),
    {
        self.loaded_levels.remove(level.as_str())
    }

    /// Unloads every map and hands back their entities, each of which the host marks for
    /// unloading.
    pub fn unload_all(&mut self) -> (unloaded: Vec<Entity>)
        ensures
            holds_values_of(unloaded@, old(self)@.loaded),
            unloaded@.len() == old(self)@.loaded.dom().len(),
            final(self)@ == (TiledManagerView {
                loaded: Map::<Seq<char>, u64>::empty(),
                ..old(self)@
            }),
    {
        let unloaded = self.loaded_levels.entities();
        self.loaded_levels.clear();
        proof {
            assert(self@.loaded =~= Map::<Seq<char>, u64>::empty());
        }
        unloaded
    }

    /// The maps that were handed over last.
    pub fn get_cached_data(&self) -> (cache: &Vec<PackedTiledTilemap>)
        ensures
            cache@ == self@.cache,
    {
        &self.cache
    }

    /// Whether the map `map_name` is loaded.
    pub fn is_loaded(&self, map_name: String) -> (loaded: bool)
        ensures
            loaded == self@.loaded.contains_key(map_name@),
    {
        self.loaded_levels.contains_key(map_name.as_str())
    }

    /// Whether the manager holds a map.
    pub fn is_initialized(&self) -> (initialized: bool)
        ensures
            initialized == (self@.cache.len() > 0),
    {
        self.cache.len() > 0
    }
}

/// The use of a tileset by a map: the position of the tileset in the table, and the number
/// from which its tiles are numbered in the map.
#[derive(Clone, Copy, Debug, PartialEq, Eq, Structural)]
pub struct TilesetUse {
    pub index: usize,
    pub first_gid: u32,
}

/// The tilesets that one map uses, in the order of their first numbers.
#[derive(Debug)]
pub struct MapTilesets {
    pub name: String,
    pub tilesets: Vec<TilesetUse>,
}

/// The first position of `uses` whose first number is at most `gid`.
pub open spec fn first_at_most(uses: Seq<TilesetUse>, gid: u32) -> Option<int>
    decreases uses.len(),
{
    if uses.len() == 0 {
        None
    } else if uses[0].first_gid <= gid {
        Some(0)
    } else {
        match first_at_most(uses.skip(1), gid) {
            Some(i) => Some(i + 1),
            None => None,
        }
    }
}

/// The first position of `uses` whose first number is above `first_gid`, or the length of
/// `uses` where there is none: where a use with that first number is put.
pub open spec fn insert_position(uses: Seq<TilesetUse>, first_gid: u32) -> int
    decreases uses.len(),
{
    if uses.len() == 0 {
        0
    } else if uses[0].first_gid > first_gid {
        0
    } else {
        insert_position(uses.skip(1), first_gid) + 1
    }
}

proof fn lemma_first_at_most(uses: Seq<TilesetUse>, gid: u32, i: int)
    requires
        0 <= i <= uses.len(),
        forall|j: int| 0 <= j < i ==> uses[j].first_gid > gid,
        i < uses.len() ==> uses[i].first_gid <= gid,
    ensures
        first_at_most(uses, gid) == if i < uses.len() {
            Some(i)
        } else {
            None
        },
    decreases uses.len(),
{
    if uses.len() > 0 && i > 0 {
        let rest = uses.skip(1);
        assert forall|j: int| 0 <= j < i - 1 implies rest[j].first_gid > gid by {}
        lemma_first_at_most(rest, gid, i - 1);
    }
}

proof fn lemma_insert_position(uses: Seq<TilesetUse>, first_gid: u32, i: int)
    requires
        0 <= i <= uses.len(),
        forall|j: int| 0 <= j < i ==> uses[j].first_gid <= first_gid,
        i < uses.len() ==> uses[i].first_gid > first_gid,
    ensures
        insert_position(uses, first_gid) == i,
    decreases uses.len(),
{
    if uses.len() > 0 && i > 0 {
        let rest = uses.skip(1);
        assert forall|j: int| 0 <= j < i - 1 implies rest[j].first_gid <= first_gid by {}
        lemma_insert_position(rest, first_gid, i - 1);
    }
}

/// The mathematical value of a [`TiledAssets`].
pub struct TiledAssetsView {
    /// The version of the manager whose maps the table was last filled from.
    pub version: u32,
    /// The tilesets that were read, in the order in which they were added.
    pub tilesets: Seq<PackedTiledTileset>,
    /// The tilesets that each map uses, by the map's name.
    pub tilemap_tilesets: Map<Seq<char>, Seq<TilesetUse>>,
}

/// The tilesets of the maps, and which map uses which of them.
pub struct TiledAssets {
    pub(crate) version: u32,
    pub(crate) tilesets: Vec<PackedTiledTileset>,
    pub(crate) tilemap_tilesets: Vec<MapTilesets>,
}

impl TiledAssets {
    /// The position of the entry of the map `name`, if the table has one.
    pub(crate) open spec fn entry_of(&self, name: Seq<char>) -> Option<int> {
        if exists|i: int| 0 <= i < self.tilemap_tilesets.len() && self.tilemap_tilesets[i].name@
            == name {
            Some(
                choose|i: int|
                    0 <= i < self.tilemap_tilesets.len() && self.tilemap_tilesets[i].name@ == name,
            )
        } else {
            None
        }
    }

    /// No map has two entries, and every use names a tileset of the table.
    pub closed spec fn wf(&self) -> bool {
        &&& forall|i: int, j: int|
            0 <= i < self.tilemap_tilesets.len() && 0 <= j < self.tilemap_tilesets.len() && i != j
                ==> self.tilemap_tilesets[i].name@ != self.tilemap_tilesets[j].name@
        &&& forall|i: int, u: int|
            0 <= i < self.tilemap_tilesets.len() && 0 <= u
                < self.tilemap_tilesets[i].tilesets.len()
                ==> (#[trigger] self.tilemap_tilesets[i].tilesets[u]).index < self.tilesets.len()
    }
}

impl View for TiledAssets {
    type V = TiledAssetsView;

    closed spec fn view(&self) -> TiledAssetsView {
        TiledAssetsView {
            version: self.version,
            tilesets: self.tilesets@,
            tilemap_tilesets: Map::new(
                |name: Seq<char>| self.entry_of(name) is Some,
                |name: Seq<char>| self.tilemap_tilesets[self.entry_of(name).unwrap()].tilesets@,
            ),
        }
    }
}

impl TiledAssetsView {
    /// The tilesets that the map `name` uses: none where the table has no entry for it.
    pub open spec fn uses_of(self, name: Seq<char>) -> Seq<TilesetUse> {
        if self.tilemap_tilesets.contains_key(name) {
            self.tilemap_tilesets[name]
        } else {
            Seq::empty()
        }
    }

    /// The table after the map `name` has come to use `tileset`, numbered from `first_gid`:
    /// the tileset is the last of the table, and its use stands among the uses of the map
    /// behind every use whose first number is not above `first_gid`.
    pub open spec fn add_tileset(self, name: Seq<char>, first_gid: u32, tileset: PackedTiledTileset)
        -> TiledAssetsView {
        TiledAssetsView {
            tilesets: self.tilesets.push(tileset),
            tilemap_tilesets: self.tilemap_tilesets.insert(
                name,
                self.uses_of(name).insert(
                    insert_position(self.uses_of(name), first_gid),
                    TilesetUse { index: self.tilesets.len() as usize, first_gid },
                ),
            ),
            ..self
        }
    }
}

impl TiledAssets {
    /// A table that holds no tileset.
    pub fn new() -> (assets: TiledAssets)
        ensures
            assets.wf(),
            assets@.version == 0,
            assets@.tilesets == Seq::<PackedTiledTileset>::empty(),
            assets@.tilemap_tilesets == Map::<Seq<char>, Seq<TilesetUse>>::empty(),
    {
        TiledAssets {
            version: 0,
            tilesets: Vec::new(),
            tilemap_tilesets: Vec::new(),
        }
    }

    /// Takes note of the version of `manager`, and says whether the table was filled from
    /// another version, so that the tilesets of the manager's maps are to be added.
    pub fn initialize(&mut self, manager: &TiledTilemapManger) -> (outdated: bool)
        requires
            old(self).wf(),
        ensures
            final(self).wf(),
            outdated == (old(self)@.version != manager@.version),
            final(self)@ == (TiledAssetsView { version: manager@.version, ..old(self)@ }),
    {
        if self.version == manager.version {
            return false;
        }
        self.version = manager.version;
        proof {
            assert(self@.tilemap_tilesets =~= old(self)@.tilemap_tilesets);
        }
        true
    }

    fn find_entry(&self, name: &String) -> (found: Option<usize>)
        requires
            self.wf(),
        ensures
            match found {
                Some(i) => self.entry_of(name@) == Some(i as int) && i
                    < self.tilemap_tilesets.len(),
                None => self.entry_of(name@) is None,
            },
    {
        let mut i: usize = 0;
        while i < self.tilemap_tilesets.len()
            invariant
                self.wf(),
                i <= self.tilemap_tilesets.len(),
                forall|j: int| 0 <= j < i ==> self.tilemap_tilesets[j].name@ != name@,
            decreases self.tilemap_tilesets.len() - i,
        {
            if self.tilemap_tilesets[i].name == *name {
                return Some(i);
            }
            i += 1;
        }
        None
    }

    /// The number of tilesets in the table.
    pub fn tileset_count(&self) -> (count: usize)
        ensures
            count == self@.tilesets.len(),
    {
        self.tilesets.len()
    }

    /// Adds `tileset` as a tileset that the map `map_name` uses, numbered from `first_gid`.
    pub fn add_tileset(&mut self, map_name: &String, first_gid: u32, tileset: PackedTiledTileset)
        requires
            old(self).wf(),
        ensures
            final(self).wf(),
            final(self)@ == old(self)@.add_tileset(map_name@, first_gid, tileset),
    {
        let index: usize = self.tilesets.len();
        let ghost target = self@.add_tileset(map_name@, first_gid, tileset);
        let added = TilesetUse { index, first_gid };
        self.tilesets.push(tileset);
        let at: usize = match self.find_entry(map_name) {
            Some(i) => i,
            None => {
                self.tilemap_tilesets.push(
                    MapTilesets { name: map_name.clone(), tilesets: Vec::new() },
                );
                self.tilemap_tilesets.len() - 1
            },
        };
        let ghost uses_before = self.tilemap_tilesets[at as int].tilesets@;
        assert(uses_before == old(self)@.uses_of(map_name@));
        let mut entry: MapTilesets = self.tilemap_tilesets.remove(at);
        let mut p: usize = 0;
        while p < entry.tilesets.len() && entry.tilesets[p].first_gid <= first_gid
            invariant
                p <= entry.tilesets.len(),
                forall|j: int| 0 <= j < p ==> entry.tilesets[j].first_gid <= first_gid,
            decreases entry.tilesets.len() - p,
        {
            p += 1;
        }
        proof {
            lemma_insert_position(entry.tilesets@, first_gid, p as int);
        }
        entry.tilesets.insert(p, added);
        self.tilemap_tilesets.insert(at, entry);
        proof {
            let before = *old(self);
            let after = *self;
            assert(after.tilemap_tilesets[at as int].name@ == map_name@);
            assert forall|i: int|
                0 <= i < after.tilemap_tilesets.len() && i != at implies i
                < before.tilemap_tilesets.len() && after.tilemap_tilesets[i].name@
                == before.tilemap_tilesets[i].name@ && after.tilemap_tilesets[i].tilesets@
                == before.tilemap_tilesets[i].tilesets@ by {}
            assert forall|i: int, j: int|
                0 <= i < after.tilemap_tilesets.len() && 0 <= j < after.tilemap_tilesets.len()
                    && i != j implies after.tilemap_tilesets[i].name@
                != after.tilemap_tilesets[j].name@ by {
                if i != at && j != at {
                    assert(before.tilemap_tilesets[i].name@ != before.tilemap_tilesets[j].name@);
                }
            }
            assert forall|i: int, u: int|
                0 <= i < after.tilemap_tilesets.len() && 0 <= u
                    < after.tilemap_tilesets[i].tilesets.len() implies (
            #[trigger] after.tilemap_tilesets[i].tilesets[u]).index < after.tilesets.len() by {
                if i != at {
                    assert(before.tilemap_tilesets[i].tilesets[u].index < before.tilesets.len());
                } else if u < p {
                    assert(uses_before[u].index < before.tilesets.len());
                } else if u > p {
                    assert(uses_before[u - 1].index < before.tilesets.len());
                }
            }
            assert forall|name: Seq<char>| name != map_name@ implies after.entry_of(name)
                is Some == before.entry_of(name) is Some && (after.entry_of(name) is Some
                ==> after.tilemap_tilesets[after.entry_of(name).unwrap()].tilesets@
                == before.tilemap_tilesets[before.entry_of(name).unwrap()].tilesets@) by {
                if before.entry_of(name) is Some {
                    let i = before.entry_of(name).unwrap();
                    assert(after.tilemap_tilesets[i].name@ == name);
                }
                if after.entry_of(name) is Some {
                    let i = after.entry_of(name).unwrap();
                    assert(before.tilemap_tilesets[i].name@ == name);
                    let j = before.entry_of(name).unwrap();
                    assert(after.tilemap_tilesets[j].name@ == name);
                }
            }
            assert(after.entry_of(map_name@) == Some(at as int));
            assert(after@.tilemap_tilesets =~= target.tilemap_tilesets);
        }
    }

    /// The tileset that the tile numbered `gid` in the map `tilemap` is taken from, with the
    /// number from which the tiles of that tileset are numbered: the first use of the map
    /// whose first number is at most `gid`.
    pub fn get_tileset(&self, gid: u32, tilemap: &String) -> (found: Option<
        (&PackedTiledTileset, u32),
    >)
        requires
            self.wf(),
        ensures
            match found {
                Some((tileset, first_gid)) => {
                    &&& first_at_most(self@.uses_of(tilemap@), gid) is Some
                    &&& first_gid == self@.uses_of(tilemap@)[first_at_most(
                        self@.uses_of(tilemap@),
                        gid,
                    ).unwrap()].first_gid
                    &&& *tileset == self@.tilesets[self@.uses_of(tilemap@)[first_at_most(
                        self@.uses_of(tilemap@),
                        gid,
                    ).unwrap()].index as int]
                },
                None => first_at_most(self@.uses_of(tilemap@), gid) is None,
            },
    {
        let at: usize = match self.find_entry(tilemap) {
            Some(i) => i,
            None => {
                return None;
            },
        };
        let uses = &self.tilemap_tilesets[at].tilesets;
        let mut i: usize = 0;
        while i < uses.len() && uses[i].first_gid > gid
            invariant
                i <= uses.len(),
                forall|j: int| 0 <= j < i ==> uses[j].first_gid > gid,
            decreases uses.len() - i,
        {
            i += 1;
        }
        proof {
            lemma_first_at_most(uses@, gid, i as int);
        }
        if i < uses.len() {
            let used = uses[i];
            Some((&self.tilesets[used.index], used.first_gid))
        } else {
            None
        }
    }
}

} // verus!
