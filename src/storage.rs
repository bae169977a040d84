use vstd::prelude::*;
use crate::lookup::{find_by, lemma_find_by_push, lemma_find_by_some};
use crate::tables::{ManifestsTable, StructureTable};
use crate::types::ObjectId;

verus! {

/// Failure of a storage operation.
#[derive(Debug, Clone, Copy, PartialEq, Eq)]
pub enum StorageError {
    NotFound(ObjectId),
}

/// Matches an entry whose key is `id`.
pub open spec fn id_is<V>(id: ObjectId) -> spec_fn((ObjectId, V)) -> bool {
    |e: (ObjectId, V)| e.0 == id
}

/// Value stored under `id` in a list of entries keyed by object id.
pub open spec fn stored<V>(s: Seq<(ObjectId, V)>, id: ObjectId) -> Option<V> {
    match find_by(s, id_is::<V>(id)) {
        Some(e) => Some(e.1),
        None => None,
    }
}

/// Index of the last entry keyed by `id`, if any.
fn find_id_index<V>(v: &Vec<(ObjectId, V)>, id: ObjectId) -> (r: Option<usize>)
    ensures
        match r {
            Some(i) => i < v@.len() && stored(v@, id) == Some(v@[i as int].1),
            None => stored(v@, id) is None,
        },
{
    let ghost m = id_is::<V>(id);
    let mut i: usize = v.len();
    assert(v@.subrange(0, i as int) =~= v@);
    while i > 0
        invariant
            i <= v@.len(),
            m == id_is::<V>(id),
            find_by(v@, m) == find_by(v@.subrange(0, i as int), m),
        decreases i,
    {
        let ghost pre = v@.subrange(0, i as int);
        assert(pre.last() == v@[i - 1]);
        if v[i - 1].0.0 == id.0 {
            return Some(i - 1);
        }
        assert(pre.drop_last() =~= v@.subrange(0, i - 1));
        i = i - 1;
    }
    assert(v@.subrange(0, 0) =~= Seq::<(ObjectId, V)>::empty());
    None
}

/// In-memory object store of structure and manifest tables.
///
/// Object ids are issued by the store itself, so a fresh id never names a
/// table that is already stored.
#[derive(Debug)]
pub struct Storage {
    pub structures: Vec<(ObjectId, StructureTable)>,
    pub manifests: Vec<(ObjectId, ManifestsTable)>,
    pub next_id: u64,
}

impl Storage {
    /// Every stored id was issued before `next_id`.
    pub open spec fn wf(&self) -> bool {
        &&& forall|i: int| 0 <= i < self.structures@.len() ==> self.structures@[i].0.0 < self.next_id
        &&& forall|i: int| 0 <= i < self.manifests@.len() ==> self.manifests@[i].0.0 < self.next_id
    }

    /// The structure table stored under `id`.
    pub open spec fn structure(&self, id: ObjectId) -> Option<StructureTable> {
        stored(self.structures@, id)
    }

    /// The manifest table stored under `id`.
    pub open spec fn manifest(&self, id: ObjectId) -> Option<ManifestsTable> {
        stored(self.manifests@, id)
    }

    /// An id at or past `next_id` names no stored table.
    pub proof fn lemma_fresh_not_stored(&self, id: ObjectId)
        requires
            self.wf(),
            id.0 >= self.next_id,
        ensures
            self.structure(id) is None,
            self.manifest(id) is None,
    {
        lemma_find_by_some(self.structures@, id_is::<StructureTable>(id));
        lemma_find_by_some(self.manifests@, id_is::<ManifestsTable>(id));
    }

    /// An empty store.
    pub fn new() -> (r: Storage)
        ensures
            r.wf(),
            r.structures@.len() == 0,
            r.manifests@.len() == 0,
    {
        Storage { structures: Vec::new(), manifests: Vec::new(), next_id: 1 }
    }

    /// Issues an id that names no stored table.
    pub fn new_object_id(&mut self) -> (r: ObjectId)
        requires
            old(self).wf(),
            old(self).next_id < u64::MAX,
        ensures
            final(self).wf(),
            r.0 == old(self).next_id,
            final(self).next_id == old(self).next_id + 1,
            final(self).structures == old(self).structures,
            final(self).manifests == old(self).manifests,
    {
        let id = ObjectId(self.next_id);
        self.next_id = self.next_id + 1;
        id
    }

    /// Fetches the structure table stored under `id`.
    pub fn fetch_structure(&self, id: &ObjectId) -> (r: Result<&StructureTable, StorageError>)
        ensures
            match r {
                Ok(t) => self.structure(*id) == Some(*t),
                Err(e) => self.structure(*id) is None && e == StorageError::NotFound(*id),
            },
    {
        match find_id_index(&self.structures, *id) {
            Some(i) => Ok(&self.structures[i].1),
            None => Err(StorageError::NotFound(*id)),
        }
    }

    /// Fetches the manifest table stored under `id`.
    pub fn fetch_manifests(&self, id: &ObjectId) -> (r: Result<&ManifestsTable, StorageError>)
        ensures
            match r {
                Ok(t) => self.manifest(*id) == Some(*t),
                Err(e) => self.manifest(*id) is None && e == StorageError::NotFound(*id),
            },
    {
        match find_id_index(&self.manifests, *id) {
            Some(i) => Ok(&self.manifests[i].1),
            None => Err(StorageError::NotFound(*id)),
        }
    }

    /// Stores `table` under `id`, which must have been issued by this store
    /// and name no stored table of its kind: stored tables never change.
    pub fn write_structure(&mut self, id: ObjectId, table: StructureTable) -> (r: Result<
        (),
        StorageError,
    >)
        requires
            old(self).wf(),
            id.0 < old(self).next_id,
            old(self).structure(id) is None,
        ensures
            r is Ok,
            final(self).wf(),
            final(self).next_id == old(self).next_id,
            final(self).manifests == old(self).manifests,
            final(self).structures@ == old(self).structures@.push((id, table)),
            forall|k: ObjectId|
                #![trigger final(self).structure(k)]
                final(self).structure(k) == if k == id {
                    Some(table)
                } else {
                    old(self).structure(k)
                },
    {
        let ghost s0 = self.structures@;
        self.structures.push((id, table));
        proof {
            assert forall|k: ObjectId| #![trigger self.structure(k)]
                self.structure(k) == if k == id {
                    Some(table)
                } else {
                    stored(s0, k)
                } by {
                lemma_find_by_push(s0, (id, table), id_is::<StructureTable>(k));
            }
        }
        Ok(())
    }

    /// Stores `table` under `id`, which must have been issued by this store
    /// and name no stored table of its kind: stored tables never change.
    pub fn write_manifests(&mut self, id: ObjectId, table: ManifestsTable) -> (r: Result<
        (),
        StorageError,
    >)
        requires
            old(self).wf(),
            id.0 < old(self).next_id,
            old(self).manifest(id) is None,
        ensures
            r is Ok,
            final(self).wf(),
            final(self).next_id == old(self).next_id,
            final(self).structures == old(self).structures,
            final(self).manifests@ == old(self).manifests@.push((id, table)),
            forall|k: ObjectId|
                #![trigger final(self).manifest(k)]
                final(self).manifest(k) == if k == id {
                    Some(table)
                } else {
                    old(self).manifest(k)
                },
    {
        let ghost s0 = self.manifests@;
        self.manifests.push((id, table));
        proof {
            assert forall|k: ObjectId| #![trigger self.manifest(k)]
                self.manifest(k) == if k == id {
                    Some(table)
                } else {
                    stored(s0, k)
                } by {
                lemma_find_by_push(s0, (id, table), id_is::<ManifestsTable>(k));
            }
        }
        Ok(())
    }
}

} // verus!
