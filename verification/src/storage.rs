//! Dataflow storage: `save` / `get` / `may_exists` / `delete` over
//! `JobId -> Dataflow`, with an in-memory backend and a persistent
//! embedded key-value backend. Both are modelled by the map
//! [`MemDataflowStorage::contents`] / [`PersistDataflowStorage::contents`]
//! from job identity to stored dataflow.

use vstd::prelude::*;
use crate::types::{
    CoordErrorKind, CoordException, Dataflow, DataflowView, JobId, JobIdView,
};
use crate::codec::{
    dec_dataflow_full, enc_dataflow, enc_job_id, encodable_job_id,
    encode_dataflow, encode_job_id, decode_dataflow, lemma_dataflow_round_trip,
    lemma_enc_job_id_injective,
};

verus! {

/// The key under which a dataflow is stored: its job identity.
pub open spec fn df_key(d: DataflowView) -> JobIdView {
    d.job_id->Some_0
}

// ---------------------------------------------------------------------------
// In-memory backend
// ---------------------------------------------------------------------------

/// Distinct entries never share a key.
spec fn unique_keys(s: Seq<(JobId, Dataflow)>) -> bool {
    forall|i: int, k: int|
        0 <= i < k < s.len() ==> (#[trigger] s[i]).0@ != (#[trigger] s[k]).0@
}

/// The position of the entry holding key `k`.
spec fn entry_index(s: Seq<(JobId, Dataflow)>, k: JobIdView) -> int {
    choose|i: int| 0 <= i < s.len() && (#[trigger] s[i]).0@ == k
}

/// The map an entry list denotes.
spec fn assoc_contents(s: Seq<(JobId, Dataflow)>) -> Map<JobIdView, DataflowView> {
    Map::new(
        |k: JobIdView| exists|i: int| 0 <= i < s.len() && (#[trigger] s[i]).0@ == k,
        |k: JobIdView| (s[entry_index(s, k)].1)@,
    )
}

proof fn lemma_assoc_contents_at(s: Seq<(JobId, Dataflow)>, i: int)
    requires
        unique_keys(s),
        0 <= i < s.len(),
    ensures
        assoc_contents(s).contains_key(s[i].0@),
        assoc_contents(s)[s[i].0@] == s[i].1@,
{
    let k = s[i].0@;
    let j = entry_index(s, k);
    assert(0 <= j < s.len() && s[j].0@ == k);
    assert(j == i);
}

/// In-memory storage backend: an association list with unique keys.
pub struct MemDataflowStorage {
    entries: Vec<(JobId, Dataflow)>,
}

impl MemDataflowStorage {
    /// Internal invariant: no key is stored twice.
    pub closed spec fn wf(self) -> bool {
        unique_keys(self.entries@)
    }

    /// What the backend currently stores, as a map.
    pub closed spec fn contents(self) -> Map<JobIdView, DataflowView> {
        assoc_contents(self.entries@)
    }

    pub fn new() -> (r: MemDataflowStorage)
        ensures
            r.wf(),
            r.contents() == Map::<JobIdView, DataflowView>::empty(),
    {
        let r = MemDataflowStorage { entries: Vec::new() };
        proof {
            assert(r.contents() =~= Map::<JobIdView, DataflowView>::empty());
        }
        r
    }

    fn find_index(&self, job_id: &JobId) -> (r: Option<usize>)
        ensures
            match r {
                Option::Some(i) => i < self.entries@.len() && self.entries@[i as int].0@
                    == job_id@,
                Option::None => forall|j: int|
                    0 <= j < self.entries@.len() ==> (#[trigger] self.entries@[j]).0@ != job_id@,
            },
    {
        let mut i: usize = 0;
        while i < self.entries.len()
            invariant
                i <= self.entries@.len(),
                forall|j: int| 0 <= j < i ==> (#[trigger] self.entries@[j]).0@ != job_id@,
            decreases self.entries@.len() - i,
        {
            if self.entries[i].0.key_eq(job_id) {
                return Some(i);
            }
            i += 1;
        }
        None
    }

    /// Upserts `dataflow` under its job identity. Never fails.
    pub fn save(&mut self, dataflow: Dataflow) -> (r: Result<(), CoordException>)
        requires
            old(self).wf(),
            dataflow@.job_id is Some,
        ensures
            final(self).wf(),
            r is Ok,
            final(self).contents() == old(self).contents().insert(df_key(dataflow@), dataflow@),
    {
        let key = match &dataflow.job_id {
            Option::Some(j) => j.duplicate(),
            Option::None => {
                return Err(CoordException::of_kind(CoordErrorKind::StorageSaveFailed));
            },
        };
        let ghost s0 = self.entries@;
        let ghost k = key@;
        match self.find_index(&key) {
            Option::Some(i) => {
                let slot = &mut self.entries[i];
                *slot = (key, dataflow);
                proof {
                    let s1 = self.entries@;
                    assert(s1 == s0.update(i as int, (key, dataflow)));
                    assert forall|a: int, b: int| 0 <= a < b < s1.len() implies (
                    #[trigger] s1[a]).0@ != (#[trigger] s1[b]).0@ by {
                        assert(s0[a].0@ != s0[b].0@);
                    }
                    lemma_assoc_insert(s0, s1, i as int, k, dataflow@);
                }
            },
            Option::None => {
                self.entries.push((key, dataflow));
                proof {
                    let s1 = self.entries@;
                    assert forall|a: int, b: int| 0 <= a < b < s1.len() implies (
                    #[trigger] s1[a]).0@ != (#[trigger] s1[b]).0@ by {
                        if b < s0.len() {
                            assert(s0[a].0@ != s0[b].0@);
                        } else {
                            assert(s1[b].0@ == k);
                            assert(s0[a].0@ != k);
                        }
                    }
                    lemma_assoc_push(s0, s1, k, dataflow@);
                }
            },
        }
        Ok(())
    }

    /// Returns the stored dataflow for `job_id`, or `None`.
    pub fn get(&self, job_id: &JobId) -> (r: Option<Dataflow>)
        requires
            self.wf(),
        ensures
            match r {
                Option::Some(d) => self.contents().contains_key(job_id@) && d@
                    == self.contents()[job_id@],
                Option::None => !self.contents().contains_key(job_id@),
            },
    {
        match self.find_index(job_id) {
            Option::Some(i) => {
                proof {
                    lemma_assoc_contents_at(self.entries@, i as int);
                }
                Some(self.entries[i].1.duplicate())
            },
            Option::None => None,
        }
    }

    /// True exactly when `job_id` is stored.
    pub fn may_exists(&self, job_id: &JobId) -> (r: bool)
        requires
            self.wf(),
        ensures
            r == self.contents().contains_key(job_id@),
    {
        match self.find_index(job_id) {
            Option::Some(_) => true,
            Option::None => false,
        }
    }

    /// Removes `job_id` if present; removing an absent key also succeeds.
    pub fn delete(&mut self, job_id: &JobId) -> (r: Result<(), CoordException>)
        requires
            old(self).wf(),
        ensures
            final(self).wf(),
            r is Ok,
            final(self).contents() == old(self).contents().remove(job_id@),
    {
        let ghost s0 = self.entries@;
        let ghost k = job_id@;
        match self.find_index(job_id) {
            Option::Some(i) => {
                self.entries.remove(i);
                proof {
                    let s1 = self.entries@;
                    assert(s1 == s0.remove(i as int));
                    assert forall|a: int, b: int| 0 <= a < b < s1.len() implies (
                    #[trigger] s1[a]).0@ != (#[trigger] s1[b]).0@ by {
                        let a0: int = if a < i { a } else { a + 1 };
                        let b0: int = if b < i { b } else { b + 1 };
                        assert(s1[a] == s0[a0]);
                        assert(s1[b] == s0[b0]);
                        assert(s0[a0].0@ != s0[b0].0@);
                    }
                    lemma_assoc_remove(s0, s1, i as int, k);
                }
            },
            Option::None => {
                proof {
                    assert(!assoc_contents(s0).contains_key(k));
                    assert(assoc_contents(s0) =~= assoc_contents(s0).remove(k));
                }
            },
        }
        Ok(())
    }
}

impl Default for MemDataflowStorage {
    fn default() -> (r: MemDataflowStorage)
        ensures
            r.wf(),
            r.contents() == Map::<JobIdView, DataflowView>::empty(),
    {
        MemDataflowStorage::new()
    }
}

proof fn lemma_assoc_insert(
    s0: Seq<(JobId, Dataflow)>,
    s1: Seq<(JobId, Dataflow)>,
    i: int,
    k: JobIdView,
    v: DataflowView,
)
    requires
        unique_keys(s0),
        unique_keys(s1),
        0 <= i < s0.len(),
        s0[i].0@ == k,
        s1.len() == s0.len(),
        s1[i].0@ == k,
        (s1[i].1)@ == v,
        forall|j: int| 0 <= j < s0.len() && j != i ==> s1[j] == s0[j],
    ensures
        assoc_contents(s1) == assoc_contents(s0).insert(k, v),
{
    let m0 = assoc_contents(s0);
    let m1 = assoc_contents(s1);
    assert forall|kk: JobIdView| #[trigger] m1.contains_key(kk) implies m0.insert(
        k,
        v,
    ).contains_key(kk) by {
        let j = choose|j: int| 0 <= j < s1.len() && (#[trigger] s1[j]).0@ == kk;
        if j != i {
            assert(s0[j].0@ == kk);
        }
    }
    assert forall|kk: JobIdView| #[trigger] m0.insert(k, v).contains_key(kk) implies
        m1.contains_key(kk) by {
        if kk == k {
            assert(s1[i].0@ == kk);
        } else {
            let j = choose|j: int| 0 <= j < s0.len() && (#[trigger] s0[j]).0@ == kk;
            assert(j != i);
            assert(s1[j].0@ == kk);
        }
    }
    assert forall|kk: JobIdView| m1.contains_key(kk) implies m1[kk] == m0.insert(k, v)[kk] by {
        let j = entry_index(s1, kk);
        assert(0 <= j < s1.len() && s1[j].0@ == kk);
        lemma_assoc_contents_at(s1, j);
        if kk == k {
            assert(j == i);
        } else {
            assert(j != i);
            lemma_assoc_contents_at(s0, j);
        }
    }
    assert(m1 =~= m0.insert(k, v));
}

proof fn lemma_assoc_push(
    s0: Seq<(JobId, Dataflow)>,
    s1: Seq<(JobId, Dataflow)>,
    k: JobIdView,
    v: DataflowView,
)
    requires
        unique_keys(s0),
        unique_keys(s1),
        s1.len() == s0.len() + 1,
        s1[s0.len() as int].0@ == k,
        (s1[s0.len() as int].1)@ == v,
        forall|j: int| 0 <= j < s0.len() ==> s1[j] == s0[j],
    ensures
        assoc_contents(s1) == assoc_contents(s0).insert(k, v),
{
    let m0 = assoc_contents(s0);
    let m1 = assoc_contents(s1);
    let n = s0.len() as int;
    assert forall|kk: JobIdView| #[trigger] m1.contains_key(kk) implies m0.insert(
        k,
        v,
    ).contains_key(kk) by {
        let j = choose|j: int| 0 <= j < s1.len() && (#[trigger] s1[j]).0@ == kk;
        if j < n {
            assert(s0[j].0@ == kk);
        }
    }
    assert forall|kk: JobIdView| #[trigger] m0.insert(k, v).contains_key(kk) implies
        m1.contains_key(kk) by {
        if kk == k {
            assert(s1[n].0@ == kk);
        } else {
            let j = choose|j: int| 0 <= j < s0.len() && (#[trigger] s0[j]).0@ == kk;
            assert(s1[j].0@ == kk);
        }
    }
    assert forall|kk: JobIdView| m1.contains_key(kk) implies m1[kk] == m0.insert(k, v)[kk] by {
        let j = entry_index(s1, kk);
        assert(0 <= j < s1.len() && s1[j].0@ == kk);
        lemma_assoc_contents_at(s1, j);
        if kk == k {
            assert(j == n);
        } else {
            assert(j != n);
            lemma_assoc_contents_at(s0, j);
        }
    }
    assert(m1 =~= m0.insert(k, v));
}

proof fn lemma_assoc_remove(
    s0: Seq<(JobId, Dataflow)>,
    s1: Seq<(JobId, Dataflow)>,
    i: int,
    k: JobIdView,
)
    requires
        unique_keys(s0),
        unique_keys(s1),
        0 <= i < s0.len(),
        s0[i].0@ == k,
        s1 == s0.remove(i),
    ensures
        assoc_contents(s1) == assoc_contents(s0).remove(k),
{
    let m0 = assoc_contents(s0);
    let m1 = assoc_contents(s1);
    assert forall|kk: JobIdView| #[trigger] m1.contains_key(kk) implies m0.remove(
        k,
    ).contains_key(kk) by {
        let j = choose|j: int| 0 <= j < s1.len() && (#[trigger] s1[j]).0@ == kk;
        let j0: int = if j < i { j } else { j + 1 };
        assert(s0[j0].0@ == kk);
        assert(kk != k);
    }
    assert forall|kk: JobIdView| #[trigger] m0.remove(k).contains_key(kk) implies
        m1.contains_key(kk) by {
        let j = choose|j: int| 0 <= j < s0.len() && (#[trigger] s0[j]).0@ == kk;
        assert(j != i);
        let j1: int = if j < i { j } else { j - 1 };
        assert(s1[j1] == s0[j]);
        assert(s1[j1].0@ == kk);
    }
    assert forall|kk: JobIdView| m1.contains_key(kk) implies m1[kk] == m0.remove(k)[kk] by {
        let j = entry_index(s1, kk);
        assert(0 <= j < s1.len() && s1[j].0@ == kk);
        lemma_assoc_contents_at(s1, j);
        let j0: int = if j < i { j } else { j + 1 };
        assert(s1[j] == s0[j0]);
        lemma_assoc_contents_at(s0, j0);
    }
    assert(m1 =~= m0.remove(k));
}

// ---------------------------------------------------------------------------
// Persistent backend, over an embedded key-value store
// ---------------------------------------------------------------------------

#[verifier::external_type_specification]
#[verifier::external_body]
pub struct ExDb(sled::Db);

#[verifier::external_type_specification]
#[verifier::external_body]
pub struct ExSledError(sled::Error);

/// What the embedded store currently maps, keys to values.
pub uninterp spec fn db_contents(db: sled::Db) -> Map<Seq<u8>, Seq<u8>>;

/// Relies on sled::open: opens (or creates) a store under `path`. Nothing
/// is known of what an existing store holds.
#[verifier::external_body]
fn db_open(path: &str) -> (r: Result<sled::Db, sled::Error>)
{
    sled::open(path)
}

/// Relies on sled::Tree::insert: on success the store maps `key` to
/// `value` and no other key changes.
#[verifier::external_body]
fn db_insert(db: &mut sled::Db, key: &Vec<u8>, value: Vec<u8>) -> (r: Result<(), sled::Error>)
    ensures
        r is Ok ==> db_contents(*final(db)) == db_contents(*old(db)).insert(key@, value@),
{
    db.insert(key.as_slice(), value).map(|_| ())
}

/// Relies on sled::Tree::get: on success returns the value the store maps
/// `key` to, or `None` when the key is absent.
#[verifier::external_body]
fn db_get(db: &sled::Db, key: &Vec<u8>) -> (r: Result<Option<Vec<u8>>, sled::Error>)
    ensures
        r matches Ok(Some(v)) ==> db_contents(*db).contains_key(key@) && v@ == db_contents(
            *db,
        )[key@],
        r matches Ok(o) && o is None ==> !db_contents(*db).contains_key(key@),
{
    db.get(key.as_slice()).map(|o| o.map(|v| v.to_vec()))
}

/// Relies on sled::Tree::contains_key: on success says whether the store
/// holds `key`.
#[verifier::external_body]
fn db_contains(db: &sled::Db, key: &Vec<u8>) -> (r: Result<bool, sled::Error>)
    ensures
        r matches Ok(b) ==> b == db_contents(*db).contains_key(key@),
{
    db.contains_key(key.as_slice())
}

/// Relies on sled::Tree::remove: on success the store no longer holds
/// `key` and no other key changes.
#[verifier::external_body]
fn db_remove(db: &mut sled::Db, key: &Vec<u8>) -> (r: Result<(), sled::Error>)
    ensures
        r is Ok ==> db_contents(*final(db)) == db_contents(*old(db)).remove(key@),
{
    db.remove(key.as_slice()).map(|_| ())
}

/// Relies on sled::Error's Display impl for a human-readable message.
#[verifier::external_body]
fn sled_error_message(e: &sled::Error) -> (r: String) {
    e.to_string()
}

/// Persistent storage backend: canonical-encoded job identities mapped to
/// canonical-encoded dataflows in an embedded key-value store.
pub struct PersistDataflowStorage {
    db: sled::Db,
}

impl PersistDataflowStorage {
    /// What the backend stores, as a map of decoded values: a job identity
    /// is present exactly when its encoded key holds bytes that decode to
    /// a dataflow.
    pub closed spec fn contents(self) -> Map<JobIdView, DataflowView> {
        Map::new(
            |k: JobIdView| encodable_job_id(k) && db_contents(self.db).contains_key(enc_job_id(k))
                && dec_dataflow_full(db_contents(self.db)[enc_job_id(k)]) is Some,
            |k: JobIdView| dec_dataflow_full(db_contents(self.db)[enc_job_id(k)])->Some_0,
        )
    }

    /// Opens the store rooted at `path`.
    pub fn open(path: &str) -> (r: Result<PersistDataflowStorage, CoordException>)
        ensures
            r matches Err(e) ==> e.kind == CoordErrorKind::StorageGetFailed,
    {
        match db_open(path) {
            Ok(db) => Ok(PersistDataflowStorage { db }),
            Err(e) => Err(
                CoordException {
                    kind: CoordErrorKind::StorageGetFailed,
                    message: sled_error_message(&e),
                },
            ),
        }
    }

    /// Upserts `dataflow` under its job identity; durable on success.
    pub fn save(&mut self, dataflow: Dataflow) -> (r: Result<(), CoordException>)
        requires
            dataflow@.job_id is Some,
        ensures
            r is Ok ==> final(self).contents() == old(self).contents().insert(
                df_key(dataflow@),
                dataflow@,
            ),
            r matches Err(e) ==> e.kind == CoordErrorKind::StorageSaveFailed,
    {
        let key = dataflow.job_id.as_ref().unwrap();
        let key_bytes = encode_job_id(key);
        let ghost jk = key@;
        let ghost dv = dataflow@;
        let val_bytes = encode_dataflow(&dataflow);
        let ghost b0 = db_contents(self.db);
        match db_insert(&mut self.db, &key_bytes, val_bytes) {
            Ok(_) => {
                proof {
                    let b1 = db_contents(self.db);
                    let m0 = old(self).contents();
                    let m1 = self.contents();
                    lemma_dataflow_round_trip(dv);
                    assert forall|kk: JobIdView| #[trigger] m1.contains_key(kk) implies m0.insert(
                        jk,
                        dv,
                    ).contains_key(kk) by {
                        if enc_job_id(kk) == enc_job_id(jk) {
                            lemma_enc_job_id_injective(kk, jk);
                        }
                    }
                    assert forall|kk: JobIdView| #[trigger] m0.insert(jk, dv).contains_key(kk)
                        implies m1.contains_key(kk) by {
                        if enc_job_id(kk) == enc_job_id(jk) {
                            lemma_enc_job_id_injective(kk, jk);
                        }
                    }
                    assert forall|kk: JobIdView| m1.contains_key(kk) implies m1[kk] == m0.insert(
                        jk,
                        dv,
                    )[kk] by {
                        if enc_job_id(kk) == enc_job_id(jk) {
                            lemma_enc_job_id_injective(kk, jk);
                        }
                    }
                    assert(m1 =~= m0.insert(jk, dv));
                }
                Ok(())
            },
            Err(e) => Err(
                CoordException {
                    kind: CoordErrorKind::StorageSaveFailed,
                    message: sled_error_message(&e),
                },
            ),
        }
    }

    /// Returns the stored dataflow for `job_id`. Corrupt or unreadable
    /// stored bytes surface as `None`.
    pub fn get(&self, job_id: &JobId) -> (r: Option<Dataflow>)
        ensures
            r matches Some(d) ==> self.contents().contains_key(job_id@) && d@
                == self.contents()[job_id@],
            !self.contents().contains_key(job_id@) ==> r is None,
    {
        let key_bytes = encode_job_id(job_id);
        match db_get(&self.db, &key_bytes) {
            Err(_) => None,
            Ok(None) => None,
            Ok(Some(v)) => match decode_dataflow(&v) {
                None => None,
                Some(d) => Some(d),
            },
        }
    }

    /// Whether the store holds bytes under this job's key, decodable or not.
    pub closed spec fn raw_contains(self, k: JobIdView) -> bool {
        db_contents(self.db).contains_key(enc_job_id(k))
    }

    /// True when the store holds bytes under this key; conservative, since
    /// those bytes may not decode to a dataflow.
    pub fn may_exists(&self, job_id: &JobId) -> (r: bool)
        ensures
            r ==> self.raw_contains(job_id@),
    {
        let key_bytes = encode_job_id(job_id);
        match db_contains(&self.db, &key_bytes) {
            Ok(b) => b,
            Err(_) => false,
        }
    }

    /// Removes `job_id`; removing an absent key also succeeds.
    pub fn delete(&mut self, job_id: &JobId) -> (r: Result<(), CoordException>)
        ensures
            r is Ok ==> final(self).contents() == old(self).contents().remove(job_id@),
            r matches Err(e) ==> e.kind == CoordErrorKind::StorageDeleteFailed,
    {
        let key_bytes = encode_job_id(job_id);
        let ghost jk = job_id@;
        match db_remove(&mut self.db, &key_bytes) {
            Ok(_) => {
                proof {
                    let m0 = old(self).contents();
                    let m1 = self.contents();
                    assert forall|kk: JobIdView| #[trigger] m1.contains_key(kk) implies m0.remove(
                        jk,
                    ).contains_key(kk) by {
                        if enc_job_id(kk) == enc_job_id(jk) {
                            lemma_enc_job_id_injective(kk, jk);
                        }
                    }
                    assert forall|kk: JobIdView| #[trigger] m0.remove(jk).contains_key(kk) implies
                        m1.contains_key(kk) by {
                        if enc_job_id(kk) == enc_job_id(jk) {
                            lemma_enc_job_id_injective(kk, jk);
                        }
                    }
                    assert forall|kk: JobIdView| m1.contains_key(kk) implies m1[kk] == m0.remove(
                        jk,
                    )[kk] by {
                        if enc_job_id(kk) == enc_job_id(jk) {
                            lemma_enc_job_id_injective(kk, jk);
                        }
                    }
                    assert(m1 =~= m0.remove(jk));
                }
                Ok(())
            },
            Err(e) => Err(
                CoordException {
                    kind: CoordErrorKind::StorageDeleteFailed,
                    message: sled_error_message(&e),
                },
            ),
        }
    }
}

// ---------------------------------------------------------------------------
// The closed set of backends
// ---------------------------------------------------------------------------

/// Dataflow storage: one of the two backends, behind one surface.
pub enum DataflowStorageImpl {
    Persist(PersistDataflowStorage),
    Memory(MemDataflowStorage),
}

impl DataflowStorageImpl {
    pub open spec fn wf(self) -> bool {
        match self {
            DataflowStorageImpl::Persist(_) => true,
            DataflowStorageImpl::Memory(m) => m.wf(),
        }
    }

    /// What the chosen backend currently stores.
    pub open spec fn contents(self) -> Map<JobIdView, DataflowView> {
        match self {
            DataflowStorageImpl::Persist(s) => s.contents(),
            DataflowStorageImpl::Memory(m) => m.contents(),
        }
    }

    /// Upserts `dataflow` under its job identity. The in-memory backend
    /// never fails; the persistent one fails only on backend errors.
    pub fn save(&mut self, dataflow: Dataflow) -> (r: Result<(), CoordException>)
        requires
            old(self).wf(),
            dataflow@.job_id is Some,
        ensures
            final(self).wf(),
            (*final(self)) is Memory <==> (*old(self)) is Memory,
            r is Ok ==> final(self).contents() == old(self).contents().insert(
                df_key(dataflow@),
                dataflow@,
            ),
            (*old(self)) is Memory ==> r is Ok,
            r matches Err(e) ==> e.kind == CoordErrorKind::StorageSaveFailed,
    {
        match self {
            DataflowStorageImpl::Persist(s) => s.save(dataflow),
            DataflowStorageImpl::Memory(m) => m.save(dataflow),
        }
    }

    /// Returns the stored dataflow for `job_id`, or `None`.
    pub fn get(&self, job_id: &JobId) -> (r: Option<Dataflow>)
        requires
            self.wf(),
        ensures
            r matches Some(d) ==> self.contents().contains_key(job_id@) && d@
                == self.contents()[job_id@],
            !self.contents().contains_key(job_id@) ==> r is None,
            (*self) is Memory && self.contents().contains_key(job_id@) ==> r is Some,
    {
        match self {
            DataflowStorageImpl::Persist(s) => s.get(job_id),
            DataflowStorageImpl::Memory(m) => m.get(job_id),
        }
    }

    /// True when the backend may hold `job_id`; exact for the in-memory
    /// backend, conservative for the persistent one.
    pub fn may_exists(&self, job_id: &JobId) -> (r: bool)
        requires
            self.wf(),
        ensures
            (*self) is Memory ==> r == self.contents().contains_key(job_id@),
    {
        match self {
            DataflowStorageImpl::Persist(s) => s.may_exists(job_id),
            DataflowStorageImpl::Memory(m) => m.may_exists(job_id),
        }
    }

    /// Removes `job_id`; removing an absent key also succeeds.
    pub fn delete(&mut self, job_id: &JobId) -> (r: Result<(), CoordException>)
        requires
            old(self).wf(),
        ensures
            final(self).wf(),
            (*final(self)) is Memory <==> (*old(self)) is Memory,
            r is Ok ==> final(self).contents() == old(self).contents().remove(job_id@),
            (*old(self)) is Memory ==> r is Ok,
            r matches Err(e) ==> e.kind == CoordErrorKind::StorageDeleteFailed,
    {
        match self {
            DataflowStorageImpl::Persist(s) => s.delete(job_id),
            DataflowStorageImpl::Memory(m) => m.delete(job_id),
        }
    }
}

// ---------------------------------------------------------------------------
// Laws about the storage model
// ---------------------------------------------------------------------------

/// Law: a dataflow read back right after a save is the one saved —
/// the same abstract value, hence byte-identical under the canonical
/// encoding.
pub proof fn lemma_save_then_get(m: Map<JobIdView, DataflowView>, d: DataflowView)
    requires
        d.job_id is Some,
    ensures
        m.insert(df_key(d), d).contains_key(df_key(d)),
        m.insert(df_key(d), d)[df_key(d)] == d,
        enc_dataflow(m.insert(df_key(d), d)[df_key(d)]) == enc_dataflow(d),
{
}

/// Law: deleting a key twice leaves the same store as deleting it once,
/// so a second delete also succeeds and changes nothing.
pub proof fn lemma_delete_idempotent(m: Map<JobIdView, DataflowView>, k: JobIdView)
    ensures
        m.remove(k).remove(k) == m.remove(k),
{
    assert(m.remove(k).remove(k) =~= m.remove(k));
}

/// Law: saving the dataflow read back after a save leaves the store
/// exactly as the first save did.
pub proof fn lemma_save_get_save(m: Map<JobIdView, DataflowView>, d: DataflowView)
    requires
        d.job_id is Some,
    ensures
        m.insert(df_key(d), d).insert(df_key(d), m.insert(df_key(d), d)[df_key(d)]) == m.insert(
            df_key(d),
            d,
        ),
{
    assert(m.insert(df_key(d), d).insert(df_key(d), d) =~= m.insert(df_key(d), d));
}

} // verus!
