//! The blob database held in memory: the behaviour that a client expects of
//! a server, against which the test rig compares the answers of a running
//! server.
use vstd::prelude::*;
use crate::types::{BlobId, BlobIds, BlobSize, SaveStatus, Status, StoreId, StoreIds};
use crate::funcs::{blob_hash, sha256};
use crate::assoc::{
    assoc_map, keys_distinct, lemma_assoc_dom, lemma_assoc_lookup, lemma_assoc_push,
    lemma_assoc_remove, lemma_assoc_update,
};

verus! {

/// A database as plain values: each store's name maps to its blobs, each
/// blob's identity to its contents.
pub type DbView = Map<Seq<char>, Map<Seq<u8>, Seq<u8>>>;

/// Every blob is held under the sha256 digest of its contents.
pub open spec fn addressed(db: DbView) -> bool {
    forall|s: Seq<char>, id: Seq<u8>|
        #![trigger db[s][id]]
        db.contains_key(s) && db[s].contains_key(id) ==> id == sha256(db[s][id])
}

/// Creating a store: `Exists` if there is one of that name, otherwise a new
/// empty store.
pub open spec fn create_spec(db: DbView, s: Seq<char>) -> (DbView, Result<(), Status>) {
    if db.contains_key(s) {
        (db, Err(Status::Exists))
    } else {
        (db.insert(s, Map::empty()), Ok(()))
    }
}

/// Destroying a store and all its blobs: `NotFound` if there is none.
pub open spec fn destroy_spec(db: DbView, s: Seq<char>) -> (DbView, Result<(), Status>) {
    if db.contains_key(s) {
        (db.remove(s), Ok(()))
    } else {
        (db, Err(Status::NotFound))
    }
}

/// The identities of a store's blobs: `NotFound` if there is no store.
pub open spec fn list_spec(db: DbView, s: Seq<char>) -> Result<Set<Seq<u8>>, Status> {
    if db.contains_key(s) {
        Ok(db[s].dom())
    } else {
        Err(Status::NotFound)
    }
}

/// A blob's contents: `NotFound` without the store or the blob.
pub open spec fn load_spec(db: DbView, s: Seq<char>, id: Seq<u8>) -> Result<Seq<u8>, Status> {
    if db.contains_key(s) && db[s].contains_key(id) {
        Ok(db[s][id])
    } else {
        Err(Status::NotFound)
    }
}

/// A blob's size: `NotFound` without the store or the blob.
pub open spec fn info_spec(db: DbView, s: Seq<char>, id: Seq<u8>) -> Result<nat, Status> {
    if db.contains_key(s) && db[s].contains_key(id) {
        Ok(db[s][id].len())
    } else {
        Err(Status::NotFound)
    }
}

/// Saving a blob under its digest: `NotFound` without the store; `Exists`,
/// with nothing changed, when the store holds the digest; otherwise
/// `Created`. The digest comes with every success.
pub open spec fn save_spec(db: DbView, s: Seq<char>, blob: Seq<u8>) -> (
    DbView,
    Result<(SaveStatus, Seq<u8>), Status>,
) {
    let id = sha256(blob);
    if !db.contains_key(s) {
        (db, Err(Status::NotFound))
    } else if db[s].contains_key(id) {
        (db, Ok((SaveStatus::Exists, id)))
    } else {
        (db.insert(s, db[s].insert(id, blob)), Ok((SaveStatus::Created, id)))
    }
}

/// Deleting a blob: `NotFound` without the store or the blob.
pub open spec fn delete_spec(db: DbView, s: Seq<char>, id: Seq<u8>) -> (
    DbView,
    Result<(), Status>,
) {
    if db.contains_key(s) && db[s].contains_key(id) {
        (db.insert(s, db[s].remove(id)), Ok(()))
    } else {
        (db, Err(Status::NotFound))
    }
}

struct BlobEntry {
    id: BlobId,
    contents: Vec<u8>,
}

struct StoreEntry {
    name: StoreId,
    blobs: Vec<BlobEntry>,
}

/// A blob database held in memory.
pub struct MemDb {
    stores: Vec<StoreEntry>,
}

spec fn blob_pairs(bs: Seq<BlobEntry>) -> Seq<(Seq<u8>, Seq<u8>)> {
    Seq::new(bs.len(), |i: int| (bs[i].id@, bs[i].contents@))
}

spec fn store_view(e: StoreEntry) -> Map<Seq<u8>, Seq<u8>> {
    assoc_map(blob_pairs(e.blobs@))
}

spec fn store_pairs(ss: Seq<StoreEntry>) -> Seq<(Seq<char>, Map<Seq<u8>, Seq<u8>>)> {
    Seq::new(ss.len(), |i: int| (ss[i].name@, store_view(ss[i])))
}

spec fn entry_wf(e: StoreEntry) -> bool {
    &&& keys_distinct(blob_pairs(e.blobs@))
    &&& forall|j: int|
        0 <= j < e.blobs@.len() ==> (#[trigger] e.blobs@[j]).id@ == sha256(e.blobs@[j].contents@)
}

impl View for MemDb {
    type V = DbView;

    closed spec fn view(&self) -> DbView {
        assoc_map(store_pairs(self.stores@))
    }
}

fn same_id(a: &BlobId, b: &BlobId) -> (r: bool)
    ensures
        r == (a@ == b@),
{
    let mut i: usize = 0;
    while i < 32
        invariant
            i <= 32,
            a@.len() == 32,
            b@.len() == 32,
            forall|j: int| 0 <= j < i ==> a@[j] == b@[j],
        decreases 32 - i,
    {
        if a.0[i] != b.0[i] {
            return false;
        }
        i = i + 1;
    }
    assert(a@ =~= b@);
    true
}

proof fn lemma_entry_view(e: StoreEntry, j: int)
    requires
        entry_wf(e),
        0 <= j < e.blobs@.len(),
    ensures
        store_view(e).contains_key(e.blobs@[j].id@),
        store_view(e)[e.blobs@[j].id@] == e.blobs@[j].contents@,
{
    lemma_assoc_lookup(blob_pairs(e.blobs@), j);
}

proof fn lemma_entry_absent(e: StoreEntry, id: Seq<u8>)
    requires
        forall|j: int| 0 <= j < e.blobs@.len() ==> e.blobs@[j].id@ != id,
    ensures
        !store_view(e).contains_key(id),
{
    lemma_assoc_dom(blob_pairs(e.blobs@), id);
}

/// The place of a blob in a store's entries.
fn find_blob(blobs: &Vec<BlobEntry>, id: &BlobId) -> (r: Option<usize>)
    ensures
        match r {
            Some(j) => j < blobs@.len() && blobs@[j as int].id@ == id@,
            None => forall|j: int| 0 <= j < blobs@.len() ==> blobs@[j].id@ != id@,
        },
{
    let mut j: usize = 0;
    while j < blobs.len()
        invariant
            j <= blobs@.len(),
            forall|k: int| 0 <= k < j ==> blobs@[k].id@ != id@,
        decreases blobs@.len() - j,
    {
        if same_id(&blobs[j].id, id) {
            return Some(j);
        }
        j = j + 1;
    }
    None
}

impl MemDb {
    /// The entries keep their invariants: store names and blob identities
    /// are distinct, and each blob is held under its digest.
    pub closed spec fn wf(&self) -> bool {
        &&& keys_distinct(store_pairs(self.stores@))
        &&& forall|i: int| 0 <= i < self.stores@.len() ==> entry_wf(#[trigger] self.stores@[i])
    }

    proof fn lemma_view_entry(&self, i: int)
        requires
            self.wf(),
            0 <= i < self.stores@.len(),
        ensures
            self@.contains_key(self.stores@[i].name@),
            self@[self.stores@[i].name@] == store_view(self.stores@[i]),
    {
        lemma_assoc_lookup(store_pairs(self.stores@), i);
    }

    proof fn lemma_view_absent(&self, s: Seq<char>)
        requires
            forall|i: int| 0 <= i < self.stores@.len() ==> self.stores@[i].name@ != s,
        ensures
            !self@.contains_key(s),
    {
        lemma_assoc_dom(store_pairs(self.stores@), s);
    }

    /// Every blob of a well-formed database is held under its digest.
    pub proof fn lemma_wf_addressed(&self)
        requires
            self.wf(),
        ensures
            addressed(self@),
    {
        assert forall|s: Seq<char>, id: Seq<u8>|
            self@.contains_key(s) && self@[s].contains_key(id) implies id == sha256(
            #[trigger] self@[s][id],
        ) by {
            lemma_assoc_dom(store_pairs(self.stores@), s);
            let i = choose|i: int|
                0 <= i < store_pairs(self.stores@).len() && store_pairs(self.stores@)[i].0 == s;
            self.lemma_view_entry(i);
            let e = self.stores@[i];
            lemma_assoc_dom(blob_pairs(e.blobs@), id);
            let j = choose|j: int|
                0 <= j < blob_pairs(e.blobs@).len() && blob_pairs(e.blobs@)[j].0 == id;
            assert(entry_wf(e));
            lemma_entry_view(e, j);
        }
    }

    /// The place of a store in the entries.
    fn find_store(&self, name: &StoreId) -> (r: Option<usize>)
        requires
            self.wf(),
        ensures
            match r {
                Some(i) => i < self.stores@.len() && self.stores@[i as int].name@ == name@
                    && self@.contains_key(name@) && self@[name@] == store_view(
                    self.stores@[i as int],
                ),
                None => !self@.contains_key(name@) && forall|i: int|
                    0 <= i < self.stores@.len() ==> self.stores@[i].name@ != name@,
            },
    {
        let mut i: usize = 0;
        while i < self.stores.len()
            invariant
                self.wf(),
                i <= self.stores@.len(),
                forall|k: int| 0 <= k < i ==> self.stores@[k].name@ != name@,
            decreases self.stores@.len() - i,
        {
            if self.stores[i].name == *name {
                proof {
                    self.lemma_view_entry(i as int);
                }
                return Some(i);
            }
            i = i + 1;
        }
        proof {
            self.lemma_view_absent(name@);
        }
        None
    }

    /// An empty database.
    pub fn new() -> (db: MemDb)
        ensures
            db.wf(),
            db@ == Map::<Seq<char>, Map<Seq<u8>, Seq<u8>>>::empty(),
    {
        let db = MemDb { stores: Vec::new() };
        assert(store_pairs(db.stores@) =~= Seq::empty());
        db
    }

    /// The names of all stores, each once.
    pub fn store_list(&self) -> (names: StoreIds)
        requires
            self.wf(),
        ensures
            names.deep_view().to_set() == self@.dom(),
            names.deep_view().no_duplicates(),
    {
        let mut names: StoreIds = Vec::new();
        let mut i: usize = 0;
        while i < self.stores.len()
            invariant
                i <= self.stores@.len(),
                names.deep_view() =~= Seq::new(i as nat, |k: int| self.stores@[k].name@),
            decreases self.stores@.len() - i,
        {
            let ghost before = names.deep_view();
            names.push(self.stores[i].name.clone());
            assert(names.deep_view() =~= before.push(self.stores@[i as int].name@));
            i = i + 1;
        }
        proof {
            let seen = names.deep_view();
            assert forall|s: Seq<char>| seen.to_set().contains(s) <==> self@.dom().contains(s) by {
                lemma_assoc_dom(store_pairs(self.stores@), s);
                if seen.to_set().contains(s) {
                    let k = choose|k: int| 0 <= k < seen.len() && seen[k] == s;
                    assert(store_pairs(self.stores@)[k].0 == s);
                }
                if self@.dom().contains(s) {
                    let k = choose|k: int|
                        0 <= k < store_pairs(self.stores@).len() && store_pairs(self.stores@)[k].0
                            == s;
                    assert(seen[k] == s);
                }
            }
            assert(seen.to_set() =~= self@.dom());
            assert forall|a: int, b: int| 0 <= a < seen.len() && 0 <= b < seen.len() && a != b implies seen[a]
                != seen[b] by {
                if a < b {
                    assert(store_pairs(self.stores@)[a].0 != store_pairs(self.stores@)[b].0);
                } else {
                    assert(store_pairs(self.stores@)[b].0 != store_pairs(self.stores@)[a].0);
                }
            }
        }
        names
    }

    /// Creates an empty store: `Exists` if there is one of that name.
    pub fn store_create(&mut self, store_id: &str) -> (r: Result<(), Status>)
        requires
            old(self).wf(),
        ensures
            final(self).wf(),
            (final(self)@, r) == create_spec(old(self)@, store_id@),
    {
        let name: StoreId = store_id.to_owned();
        match self.find_store(&name) {
            Some(_) => Err(Status::Exists),
            None => {
                let ghost before = self.stores@;
                let entry = StoreEntry { name, blobs: Vec::new() };
                assert(blob_pairs(entry.blobs@) =~= Seq::empty());
                self.stores.push(entry);
                proof {
                    assert(store_pairs(self.stores@) =~= store_pairs(before).push(
                        (store_id@, Map::empty()),
                    ));
                    lemma_assoc_push(store_pairs(before), store_id@, Map::empty());
                    assert forall|i: int| 0 <= i < self.stores@.len() implies entry_wf(
                        #[trigger] self.stores@[i],
                    ) by {
                        if i < before.len() {
                            assert(self.stores@[i] == before[i]);
                        }
                    }
                }
                Ok(())
            },
        }
    }

    /// Destroys a store and all its blobs: `NotFound` if there is none.
    pub fn store_destroy(&mut self, store_id: &str) -> (r: Result<(), Status>)
        requires
            old(self).wf(),
        ensures
            final(self).wf(),
            (final(self)@, r) == destroy_spec(old(self)@, store_id@),
    {
        let name: StoreId = store_id.to_owned();
        match self.find_store(&name) {
            None => Err(Status::NotFound),
            Some(i) => {
                let ghost before = self.stores@;
                self.stores.remove(i);
                proof {
                    assert(store_pairs(self.stores@) =~= store_pairs(before).remove(i as int));
                    lemma_assoc_remove(store_pairs(before), i as int);
                    assert forall|k: int| 0 <= k < self.stores@.len() implies entry_wf(
                        #[trigger] self.stores@[k],
                    ) by {
                        if k < i {
                            assert(self.stores@[k] == before[k]);
                        } else {
                            assert(self.stores@[k] == before[k + 1]);
                        }
                    }
                }
                Ok(())
            },
        }
    }

    /// The identities of a store's blobs, each once: `NotFound` if there is
    /// no store.
    pub fn blob_list(&self, store_id: &str) -> (r: Result<BlobIds, Status>)
        requires
            self.wf(),
        ensures
            match list_spec(self@, store_id@) {
                Ok(ids) => r matches Ok(v) && v.deep_view().to_set() == ids
                    && v.deep_view().no_duplicates(),
                Err(e) => r == Err::<BlobIds, Status>(e),
            },
    {
        let name: StoreId = store_id.to_owned();
        match self.find_store(&name) {
            None => Err(Status::NotFound),
            Some(i) => {
                let entry = &self.stores[i];
                assert(entry_wf(*entry));
                let mut ids: BlobIds = Vec::new();
                let mut j: usize = 0;
                while j < entry.blobs.len()
                    invariant
                        j <= entry.blobs@.len(),
                        ids.deep_view() =~= Seq::new(j as nat, |k: int| entry.blobs@[k].id@),
                    decreases entry.blobs@.len() - j,
                {
                    let ghost before = ids.deep_view();
                    ids.push(entry.blobs[j].id);
                    assert(ids.deep_view() =~= before.push(entry.blobs@[j as int].id@));
                    j = j + 1;
                }
                proof {
                    let seen = ids.deep_view();
                    let pairs = blob_pairs(entry.blobs@);
                    assert forall|id: Seq<u8>| seen.to_set().contains(id) <==> store_view(
                        *entry,
                    ).dom().contains(id) by {
                        lemma_assoc_dom(pairs, id);
                        if seen.to_set().contains(id) {
                            let k = choose|k: int| 0 <= k < seen.len() && seen[k] == id;
                            assert(pairs[k].0 == id);
                        }
                        if store_view(*entry).dom().contains(id) {
                            let k = choose|k: int| 0 <= k < pairs.len() && pairs[k].0 == id;
                            assert(seen[k] == id);
                        }
                    }
                    assert(seen.to_set() =~= store_view(*entry).dom());
                    assert forall|a: int, b: int|
                        0 <= a < seen.len() && 0 <= b < seen.len() && a != b implies seen[a]
                        != seen[b] by {
                        if a < b {
                            assert(pairs[a].0 != pairs[b].0);
                        } else {
                            assert(pairs[b].0 != pairs[a].0);
                        }
                    }
                }
                Ok(ids)
            },
        }
    }

    /// The contents of a blob: `NotFound` without the store or the blob.
    pub fn blob_load(&self, store_id: &str, blob_id: &BlobId) -> (r: Result<Vec<u8>, Status>)
        requires
            self.wf(),
        ensures
            match load_spec(self@, store_id@, blob_id@) {
                Ok(c) => r matches Ok(v) && v@ == c,
                Err(e) => r == Err::<Vec<u8>, Status>(e),
            },
    {
        let name: StoreId = store_id.to_owned();
        match self.find_store(&name) {
            None => Err(Status::NotFound),
            Some(i) => {
                let entry = &self.stores[i];
                assert(entry_wf(*entry));
                match find_blob(&entry.blobs, blob_id) {
                    None => {
                        proof {
                            lemma_entry_absent(*entry, blob_id@);
                        }
                        Err(Status::NotFound)
                    },
                    Some(j) => {
                        proof {
                            lemma_entry_view(*entry, j as int);
                        }
                        Ok(vstd::slice::slice_to_vec(entry.blobs[j].contents.as_slice()))
                    },
                }
            },
        }
    }

    /// The size of a blob: `NotFound` without the store or the blob.
    pub fn blob_info(&self, store_id: &str, blob_id: &BlobId) -> (r: Result<BlobSize, Status>)
        requires
            self.wf(),
        ensures
            match info_spec(self@, store_id@, blob_id@) {
                Ok(n) => r == Ok::<BlobSize, Status>(n as BlobSize),
                Err(e) => r == Err::<BlobSize, Status>(e),
            },
    {
        let name: StoreId = store_id.to_owned();
        match self.find_store(&name) {
            None => Err(Status::NotFound),
            Some(i) => {
                let entry = &self.stores[i];
                assert(entry_wf(*entry));
                match find_blob(&entry.blobs, blob_id) {
                    None => {
                        proof {
                            lemma_entry_absent(*entry, blob_id@);
                        }
                        Err(Status::NotFound)
                    },
                    Some(j) => {
                        proof {
                            lemma_entry_view(*entry, j as int);
                        }
                        Ok(entry.blobs[j].contents.len() as BlobSize)
                    },
                }
            },
        }
    }

    /// Saves a blob in a store under its digest.
    pub fn blob_save(&mut self, store_id: &str, blob: &[u8]) -> (r: Result<
        (SaveStatus, BlobId),
        Status,
    >)
        requires
            old(self).wf(),
        ensures
            final(self).wf(),
            final(self)@ == save_spec(old(self)@, store_id@, blob@).0,
            match save_spec(old(self)@, store_id@, blob@).1 {
                Ok((ss, id)) => r matches Ok((rs, rid)) && rs == ss && rid@ == id,
                Err(e) => r == Err::<(SaveStatus, BlobId), Status>(e),
            },
    {
        let name: StoreId = store_id.to_owned();
        let blob_id = blob_hash(blob);
        match self.find_store(&name) {
            None => Err(Status::NotFound),
            Some(i) => {
                assert(entry_wf(self.stores@[i as int]));
                match find_blob(&self.stores[i].blobs, &blob_id) {
                    Some(j) => {
                        proof {
                            lemma_entry_view(self.stores@[i as int], j as int);
                        }
                        Ok((SaveStatus::Exists, blob_id))
                    },
                    None => {
                        proof {
                            lemma_entry_absent(self.stores@[i as int], blob_id@);
                        }
                        let ghost before = self.stores@;
                        let ghost old_entry = self.stores@[i as int];
                        let contents = vstd::slice::slice_to_vec(blob);
                        let mut entry = self.stores.remove(i);
                        entry.blobs.push(BlobEntry { id: blob_id, contents });
                        self.stores.insert(i, entry);
                        proof {
                            let new_entry = self.stores@[i as int];
                            assert(blob_pairs(new_entry.blobs@) =~= blob_pairs(
                                old_entry.blobs@,
                            ).push((blob_id@, blob@)));
                            lemma_assoc_push(blob_pairs(old_entry.blobs@), blob_id@, blob@);
                            assert(keys_distinct(blob_pairs(new_entry.blobs@))) by {
                                let p = blob_pairs(new_entry.blobs@);
                                assert forall|a: int, b: int| 0 <= a < b < p.len() implies p[a].0
                                    != p[b].0 by {
                                    if b == p.len() - 1 {
                                        assert(old_entry.blobs@[a].id@ != blob_id@);
                                    } else {
                                        assert(blob_pairs(old_entry.blobs@)[a].0 != blob_pairs(
                                            old_entry.blobs@,
                                        )[b].0);
                                    }
                                }
                            }
                            assert(entry_wf(new_entry)) by {
                                assert forall|j: int| 0 <= j < new_entry.blobs@.len() implies (
                                #[trigger] new_entry.blobs@[j]).id@ == sha256(
                                    new_entry.blobs@[j].contents@,
                                ) by {
                                    if j < old_entry.blobs@.len() {
                                        assert(new_entry.blobs@[j] == old_entry.blobs@[j]);
                                    }
                                }
                            }
                            assert(self.stores@ =~= before.update(i as int, new_entry));
                            let new_view = store_view(old_entry).insert(blob_id@, blob@);
                            assert(store_pairs(self.stores@) =~= store_pairs(before).update(
                                i as int,
                                (store_id@, new_view),
                            ));
                            lemma_assoc_update(store_pairs(before), i as int, new_view);
                            assert forall|k: int| 0 <= k < self.stores@.len() implies entry_wf(
                                #[trigger] self.stores@[k],
                            ) by {
                                if k != i {
                                    assert(self.stores@[k] == before[k]);
                                }
                            }
                        }
                        Ok((SaveStatus::Created, blob_id))
                    },
                }
            },
        }
    }

    /// Deletes a blob from a store: `NotFound` without the store or the blob.
    pub fn blob_delete(&mut self, store_id: &str, blob_id: &BlobId) -> (r: Result<(), Status>)
        requires
            old(self).wf(),
        ensures
            final(self).wf(),
            (final(self)@, r) == delete_spec(old(self)@, store_id@, blob_id@),
    {
        let name: StoreId = store_id.to_owned();
        match self.find_store(&name) {
            None => Err(Status::NotFound),
            Some(i) => {
                assert(entry_wf(self.stores@[i as int]));
                match find_blob(&self.stores[i].blobs, blob_id) {
                    None => {
                        proof {
                            lemma_entry_absent(self.stores@[i as int], blob_id@);
                        }
                        Err(Status::NotFound)
                    },
                    Some(j) => {
                        proof {
                            lemma_entry_view(self.stores@[i as int], j as int);
                        }
                        let ghost before = self.stores@;
                        let ghost old_entry = self.stores@[i as int];
                        let mut entry = self.stores.remove(i);
                        entry.blobs.remove(j);
                        self.stores.insert(i, entry);
                        proof {
                            let new_entry = self.stores@[i as int];
                            assert(blob_pairs(new_entry.blobs@) =~= blob_pairs(
                                old_entry.blobs@,
                            ).remove(j as int));
                            lemma_assoc_remove(blob_pairs(old_entry.blobs@), j as int);
                            assert(entry_wf(new_entry)) by {
                                assert forall|k: int| 0 <= k < new_entry.blobs@.len() implies (
                                #[trigger] new_entry.blobs@[k]).id@ == sha256(
                                    new_entry.blobs@[k].contents@,
                                ) by {
                                    if k < j {
                                        assert(new_entry.blobs@[k] == old_entry.blobs@[k]);
                                    } else {
                                        assert(new_entry.blobs@[k] == old_entry.blobs@[k + 1]);
                                    }
                                }
                            }
                            assert(self.stores@ =~= before.update(i as int, new_entry));
                            let new_view = store_view(old_entry).remove(blob_id@);
                            assert(store_pairs(self.stores@) =~= store_pairs(before).update(
                                i as int,
                                (store_id@, new_view),
                            ));
                            lemma_assoc_update(store_pairs(before), i as int, new_view);
                            assert forall|k: int| 0 <= k < self.stores@.len() implies entry_wf(
                                #[trigger] self.stores@[k],
                            ) by {
                                if k != i {
                                    assert(self.stores@[k] == before[k]);
                                }
                            }
                        }
                        Ok(())
                    },
                }
            },
        }
    }

}


// ---------------------------------------------------------------- laws

/// A blob saved in a store can be loaded by the identity that the save
/// returns, which is its digest: what is loaded has that digest, and is the
/// blob itself when the store did not hold the digest before.
pub proof fn lemma_save_then_load(db: DbView, s: Seq<char>, b: Seq<u8>)
    requires
        db.contains_key(s),
        addressed(db),
    ensures
        ({
            let (db2, r) = save_spec(db, s, b);
            &&& r matches Ok((_, id)) && id == sha256(b)
            &&& load_spec(db2, s, sha256(b)) matches Ok(c) && sha256(c) == sha256(b)
            &&& !db[s].contains_key(sha256(b)) ==> load_spec(db2, s, sha256(b)) == Ok::<
                Seq<u8>,
                Status,
            >(b)
            &&& addressed(db2)
        }),
{
    let db2 = save_spec(db, s, b).0;
    let id = sha256(b);
    if db[s].contains_key(id) {
        assert(id == sha256(db[s][id]));
    } else {
        assert forall|s2: Seq<char>, id2: Seq<u8>|
            db2.contains_key(s2) && db2[s2].contains_key(id2) implies id2 == sha256(
            #[trigger] db2[s2][id2],
        ) by {
            if s2 != s || id2 != id {
                assert(db[s2].contains_key(id2));
                assert(id2 == sha256(db[s2][id2]));
            }
        }
    }
}

/// Saving the same blob twice: the second save reports `Exists`, returns
/// the same identity and changes nothing.
pub proof fn lemma_save_twice(db: DbView, s: Seq<char>, b: Seq<u8>)
    requires
        db.contains_key(s),
    ensures
        ({
            let (db2, r1) = save_spec(db, s, b);
            let (db3, r2) = save_spec(db2, s, b);
            &&& r2 == Ok::<(SaveStatus, Seq<u8>), Status>((SaveStatus::Exists, sha256(b)))
            &&& db3 == db2
            &&& r1 matches Ok((_, id)) && id == sha256(b)
        }),
{
}

/// A deleted blob is gone: loading it or asking its size gives `NotFound`,
/// and the store no longer lists it.
pub proof fn lemma_delete_then_load(db: DbView, s: Seq<char>, id: Seq<u8>)
    requires
        delete_spec(db, s, id).1 is Ok,
    ensures
        ({
            let db2 = delete_spec(db, s, id).0;
            &&& load_spec(db2, s, id) == Err::<Seq<u8>, Status>(Status::NotFound)
            &&& info_spec(db2, s, id) == Err::<nat, Status>(Status::NotFound)
            &&& list_spec(db2, s) matches Ok(ids) && !ids.contains(id)
        }),
{
}

/// A destroyed store is gone with all its blobs: listing, loading and
/// saving give `NotFound`.
pub proof fn lemma_destroy_forgets(db: DbView, s: Seq<char>, id: Seq<u8>, b: Seq<u8>)
    requires
        destroy_spec(db, s).1 is Ok,
    ensures
        ({
            let db2 = destroy_spec(db, s).0;
            &&& list_spec(db2, s) == Err::<Set<Seq<u8>>, Status>(Status::NotFound)
            &&& load_spec(db2, s, id) == Err::<Seq<u8>, Status>(Status::NotFound)
            &&& save_spec(db2, s, b).1 == Err::<(SaveStatus, Seq<u8>), Status>(Status::NotFound)
        }),
{
}

/// A created store is listed with no blobs, and creating it again gives
/// `Exists` and changes nothing.
pub proof fn lemma_create_twice(db: DbView, s: Seq<char>)
    requires
        create_spec(db, s).1 is Ok,
    ensures
        ({
            let db2 = create_spec(db, s).0;
            &&& db2.dom().contains(s)
            &&& list_spec(db2, s) == Ok::<Set<Seq<u8>>, Status>(Set::empty())
            &&& create_spec(db2, s) == (db2, Err::<(), Status>(Status::Exists))
        }),
{
    assert(Map::<Seq<u8>, Seq<u8>>::empty().dom() =~= Set::empty());
}

/// The size that a blob's info reports is the size of what loading it
/// gives, and both fail alike.
pub proof fn lemma_info_is_size(db: DbView, s: Seq<char>, id: Seq<u8>)
    ensures
        match load_spec(db, s, id) {
            Ok(c) => info_spec(db, s, id) == Ok::<nat, Status>(c.len()),
            Err(e) => info_spec(db, s, id) == Err::<nat, Status>(e),
        },
{
}

/// Creating, destroying, saving or deleting in one store leaves every other
/// store as it was, duplicates of the same blobs included.
pub proof fn lemma_other_stores_unchanged(
    db: DbView,
    s: Seq<char>,
    other: Seq<char>,
    b: Seq<u8>,
    id: Seq<u8>,
)
    requires
        s != other,
    ensures
        create_spec(db, s).0.contains_key(other) == db.contains_key(other),
        destroy_spec(db, s).0.contains_key(other) == db.contains_key(other),
        save_spec(db, s, b).0.contains_key(other) == db.contains_key(other),
        delete_spec(db, s, id).0.contains_key(other) == db.contains_key(other),
        db.contains_key(other) ==> create_spec(db, s).0[other] == db[other],
        db.contains_key(other) ==> destroy_spec(db, s).0[other] == db[other],
        db.contains_key(other) ==> save_spec(db, s, b).0[other] == db[other],
        db.contains_key(other) ==> delete_spec(db, s, id).0[other] == db[other],
{
}

} // verus!
