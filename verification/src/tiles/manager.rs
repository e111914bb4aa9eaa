//! Loaded chunks and the streaming window.

use vstd::prelude::*;

use crate::column_table::{
    entries, has_size, no_entries, table_get, table_insert, table_len, table_list, table_new,
    table_remove, ColumnTable,
};
use crate::grid_map::lists;
use crate::tiles::coords::ChunkPos;

verus! {

/// The key of a chunk.
pub open spec fn chunk_key(p: ChunkPos) -> (i32, i32) {
    (p.x, p.y)
}

/// Maps loaded chunk coordinates to their entity.
pub struct ChunkManager {
    loaded: ColumnTable,
}

impl View for ChunkManager {
    type V = Map<(i32, i32), u64>;

    closed spec fn view(&self) -> Map<(i32, i32), u64> {
        entries(self.loaded)
    }
}

/// The table entry of a chunk and its entity.
pub open spec fn key_entry(e: (ChunkPos, u64)) -> ((i32, i32), u64) {
    (chunk_key(e.0), e.1)
}

pub open spec fn key_entries(list: Seq<(ChunkPos, u64)>) -> Seq<((i32, i32), u64)> {
    list.map_values(|e: (ChunkPos, u64)| key_entry(e))
}

/// Turns table entries into chunks and entities.
fn chunk_list(list: &Vec<((i32, i32), u64)>) -> (v: Vec<(ChunkPos, u64)>)
    ensures
        key_entries(v@) == list@,
{
    let mut v: Vec<(ChunkPos, u64)> = Vec::new();
    let mut i: usize = 0;
    while i < list.len()
        invariant
            i <= list@.len(),
            v@.len() == i,
            forall|k: int| 0 <= k < i ==> key_entry(#[trigger] v@[k]) == list@[k],
        decreases list@.len() - i,
    {
        let ((x, y), e): ((i32, i32), u64) = list[i];
        v.push((ChunkPos { x, y }, e));
        i += 1;
    }
    assert(key_entries(v@) =~= list@);
    v
}

impl ChunkManager {
    /// No chunk is loaded.
    pub fn new() -> (m: ChunkManager)
        ensures
            m@ == no_entries(),
    {
        ChunkManager { loaded: table_new() }
    }

    pub fn get(&self, pos: ChunkPos) -> (e: Option<u64>)
        ensures
            e == (if self@.contains_key(chunk_key(pos)) {
                Some(self@[chunk_key(pos)])
            } else {
                None
            }),
    {
        table_get(&self.loaded, (pos.x, pos.y))
    }

    pub fn is_loaded(&self, pos: ChunkPos) -> (r: bool)
        ensures
            r == self@.contains_key(chunk_key(pos)),
    {
        table_get(&self.loaded, (pos.x, pos.y)).is_some()
    }

    pub fn loaded_count(&self) -> (n: usize)
        ensures
            has_size(self@, n),
    {
        table_len(&self.loaded)
    }

    /// Every loaded chunk once, in no particular order.
    pub fn iter(&self) -> (v: Vec<(ChunkPos, u64)>)
        ensures
            lists(key_entries(v@), self@),
    {
        let list = table_list(&self.loaded);
        chunk_list(&list)
    }

    pub fn insert(&mut self, pos: ChunkPos, entity: u64)
        ensures
            final(self)@ == old(self)@.insert(chunk_key(pos), entity),
    {
        table_insert(&mut self.loaded, (pos.x, pos.y), entity);
    }

    pub fn remove(&mut self, pos: ChunkPos) -> (e: Option<u64>)
        ensures
            final(self)@ == old(self)@.remove(chunk_key(pos)),
            e == (if old(self)@.contains_key(chunk_key(pos)) {
                Some(old(self)@[chunk_key(pos)])
            } else {
                None
            }),
    {
        table_remove(&mut self.loaded, (pos.x, pos.y))
    }
}

impl Default for ChunkManager {
    fn default() -> (m: ChunkManager)
        ensures
            m@ == no_entries(),
    {
        ChunkManager::new()
    }
}

/// In-flight chunk-generation work, by chunk; the number tells the task.
pub struct PendingChunkGenerations {
    tasks: ColumnTable,
}

impl View for PendingChunkGenerations {
    type V = Map<(i32, i32), u64>;

    closed spec fn view(&self) -> Map<(i32, i32), u64> {
        entries(self.tasks)
    }
}

impl PendingChunkGenerations {
    /// Nothing is being generated.
    pub fn new() -> (p: PendingChunkGenerations)
        ensures
            p@ == no_entries(),
    {
        PendingChunkGenerations { tasks: table_new() }
    }

    /// How many tasks are currently scheduled (alive or finished but not yet
    /// collected).
    pub fn in_flight(&self) -> (n: usize)
        ensures
            has_size(self@, n),
    {
        table_len(&self.tasks)
    }

    pub fn is_pending(&self, pos: ChunkPos) -> (r: bool)
        ensures
            r == self@.contains_key(chunk_key(pos)),
    {
        table_get(&self.tasks, (pos.x, pos.y)).is_some()
    }

    /// Every chunk being generated once, in no particular order.
    pub fn iter(&self) -> (v: Vec<(ChunkPos, u64)>)
        ensures
            lists(key_entries(v@), self@),
    {
        let list = table_list(&self.tasks);
        chunk_list(&list)
    }

    pub fn insert(&mut self, pos: ChunkPos, task: u64)
        ensures
            final(self)@ == old(self)@.insert(chunk_key(pos), task),
    {
        table_insert(&mut self.tasks, (pos.x, pos.y), task);
    }

    pub fn remove(&mut self, pos: ChunkPos) -> (task: Option<u64>)
        ensures
            final(self)@ == old(self)@.remove(chunk_key(pos)),
            task == (if old(self)@.contains_key(chunk_key(pos)) {
                Some(old(self)@[chunk_key(pos)])
            } else {
                None
            }),
    {
        table_remove(&mut self.tasks, (pos.x, pos.y))
    }
}

/// Tunables for the streaming window.
#[derive(Clone, Copy, Debug, PartialEq, Eq, Structural)]
pub struct StreamingConfig {
    /// Chebyshev distance in chunks at which full tile-detail loads.
    pub load_radius: i32,
    /// Where chunks fall back to a single baked imposter sprite.
    pub hlod_radius: i32,
    /// Where chunks are released entirely.
    pub unload_radius: i32,
    /// Max chunk-generation tasks spawned per frame.
    pub max_loads_per_frame: usize,
    /// Max chunks to despawn per frame.
    pub max_unloads_per_frame: usize,
    /// Hard ceiling on tasks alive at once.
    pub max_pending_tasks: usize,
}

impl Default for StreamingConfig {
    fn default() -> (c: StreamingConfig)
        ensures
            c == (StreamingConfig {
                load_radius: 2,
                hlod_radius: 5,
                unload_radius: 7,
                max_loads_per_frame: 4,
                max_unloads_per_frame: 8,
                max_pending_tasks: 32,
            }),
    {
        StreamingConfig {
            load_radius: 2,
            hlod_radius: 5,
            unload_radius: 7,
            max_loads_per_frame: 4,
            max_unloads_per_frame: 8,
            max_pending_tasks: 32,
        }
    }
}

} // verus!
