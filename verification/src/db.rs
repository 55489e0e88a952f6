//! The keyed record store: named partitions ("trees") of an embedded
//! key-value store, with typed, verified access on top of raw bytes.
//!
//! The embedded store itself is trusted: each partition is modelled as a
//! map from key bytes to value bytes, and a small set of wrappers states
//! what the store's operations do to that map.  Everything above the byte
//! level — encoding, decoding, defaults — is verified.
//!
//! The model treats each partition as exclusively owned by the `Store`
//! that holds it.  That is why `Store::new` consumes the database handle:
//! the seven partitions it opens have distinct names, and no second
//! handle to them circulates in verified code.

use vstd::prelude::*;

use crate::codec::dec_i64;
use crate::error::StoreError;
use crate::codec::dec_measures;
use crate::codec::dec_members;
use crate::codec::enc_i64;
use crate::codec::enc_measures;
use crate::codec::enc_members;
use crate::codec::push_i64;
use crate::codec::read_i64;
use crate::codec::encode_measures;
use crate::codec::decode_measures;
use crate::codec::encode_members;
use crate::codec::decode_members;

verus! {

/// One sample of a receiver's balance history: the balance right after a
/// grant, together with the moment it was taken.
#[derive(Clone, Copy, PartialEq, Eq, Structural, Debug)]
pub struct Measure {
    pub timestamp: i64,
    pub karma: i64,
}

impl Measure {
    /// A sample taken at `timestamp` with balance `karma`.
    pub fn new(timestamp: i64, karma: i64) -> (r: Measure)
        ensures
            r.timestamp == timestamp,
            r.karma == karma,
    {
        Measure { timestamp, karma }
    }
}

#[verifier::external_type_specification]
#[verifier::external_body]
pub struct ExTree(sled::Tree);

#[verifier::external_type_specification]
#[verifier::external_body]
pub struct ExDb(sled::Db);

#[verifier::external_type_specification]
#[verifier::external_body]
pub struct ExSledError(sled::Error);

/// The contents of one store partition: a map from key bytes to value
/// bytes.
pub uninterp spec fn tree_entries(t: sled::Tree) -> Map<Seq<u8>, Seq<u8>>;

/// Relies on sled::Tree::get: returns the value stored under the key, if
/// any.
#[verifier::external_body]
fn tree_get(t: &sled::Tree, key: &[u8]) -> (r: Result<Option<Vec<u8>>, sled::Error>)
    ensures
        match r {
            Ok(Some(v)) => tree_entries(*t).contains_key(key@) && v@ == tree_entries(*t)[key@],
            Ok(None) => !tree_entries(*t).contains_key(key@),
            Err(_) => true,
        },
{
    match t.get(key) {
        Ok(Some(ivec)) => Ok(Some(ivec.to_vec())),
        Ok(None) => Ok(None),
        Err(e) => Err(e),
    }
}

/// Relies on sled::Tree::insert: maps the key to the value, replacing any
/// previous value.
#[verifier::external_body]
fn tree_insert(t: &mut sled::Tree, key: &[u8], value: Vec<u8>) -> (r: Result<(), sled::Error>)
    ensures
        r is Ok ==> tree_entries(*final(t)) == tree_entries(*old(t)).insert(key@, value@),
{
    match t.insert(key, value) {
        Ok(_) => Ok(()),
        Err(e) => Err(e),
    }
}

/// Relies on sled::Tree::remove: unmaps the key, returning the previous
/// value if there was one.
#[verifier::external_body]
fn tree_remove(t: &mut sled::Tree, key: &[u8]) -> (r: Result<Option<Vec<u8>>, sled::Error>)
    ensures
        match r {
            Ok(Some(v)) => tree_entries(*old(t)).contains_key(key@) && v@ == tree_entries(
                *old(t),
            )[key@] && tree_entries(*final(t)) == tree_entries(*old(t)).remove(key@),
            Ok(None) => !tree_entries(*old(t)).contains_key(key@) && tree_entries(*final(t))
                == tree_entries(*old(t)),
            Err(_) => true,
        },
{
    match t.remove(key) {
        Ok(Some(ivec)) => Ok(Some(ivec.to_vec())),
        Ok(None) => Ok(None),
        Err(e) => Err(e),
    }
}

/// Relies on sled::Tree::clear: removes every entry of the partition.
#[verifier::external_body]
fn tree_clear(t: &mut sled::Tree) -> (r: Result<(), sled::Error>)
    ensures
        r is Ok ==> tree_entries(*final(t)) == empty_entries(),
{
    match t.clear() {
        Ok(()) => Ok(()),
        Err(e) => Err(e),
    }
}

/// Relies on sled::Db::open_tree: opens one named partition per entity
/// kind.  Nothing is assumed about the contents found on disk.
#[verifier::external_body]
fn open_store(db: sled::Db) -> (r: Result<Store, sled::Error>)
{
    Ok(Store {
        karma: IntTree { raw: db.open_tree("karma")? },
        up: IntTree { raw: db.open_tree("up")? },
        down: IntTree { raw: db.open_tree("down")? },
        last: IntTree { raw: db.open_tree("last")? },
        last_message: IntTree { raw: db.open_tree("last_message")? },
        members: MemberTree { raw: db.open_tree("members")? },
        graph: MeasureTree { raw: db.open_tree("graph")? },
    })
}

/// The contents of a partition with nothing in it.
pub open spec fn empty_entries() -> Map<Seq<u8>, Seq<u8>> {
    Map::empty()
}

/// Whether the value bytes under `k`, if any, decode as a signed integer.
pub open spec fn i64_wf_at(m: Map<Seq<u8>, Seq<u8>>, k: Seq<u8>) -> bool {
    m.contains_key(k) ==> dec_i64(m[k]) is Some
}

/// The signed integer stored under `k`, or `d` where no entry exists.
pub open spec fn i64_at_or(m: Map<Seq<u8>, Seq<u8>>, k: Seq<u8>, d: i64) -> i64 {
    if m.contains_key(k) {
        match dec_i64(m[k]) {
            Some(v) => v,
            None => d,
        }
    } else {
        d
    }
}

/// Whether the value bytes under `k`, if any, decode as a history log.
pub open spec fn measures_wf_at(m: Map<Seq<u8>, Seq<u8>>, k: Seq<u8>) -> bool {
    m.contains_key(k) ==> dec_measures(m[k]) is Some
}

/// The history log stored under `k`, or the empty log.
pub open spec fn measures_at(m: Map<Seq<u8>, Seq<u8>>, k: Seq<u8>) -> Seq<Measure> {
    if m.contains_key(k) {
        match dec_measures(m[k]) {
            Some(v) => v,
            None => Seq::empty(),
        }
    } else {
        Seq::empty()
    }
}

/// Whether the value bytes under `k`, if any, decode as a membership
/// list.
pub open spec fn members_wf_at(m: Map<Seq<u8>, Seq<u8>>, k: Seq<u8>) -> bool {
    m.contains_key(k) ==> dec_members(m[k]) is Some
}

/// The membership list stored under `k`, or the empty list.
pub open spec fn members_at(m: Map<Seq<u8>, Seq<u8>>, k: Seq<u8>) -> Seq<u64> {
    if m.contains_key(k) {
        match dec_members(m[k]) {
            Some(v) => v,
            None => Seq::empty(),
        }
    } else {
        Seq::empty()
    }
}

/// A partition of signed integers keyed by identifier bytes.
pub struct IntTree {
    raw: sled::Tree,
}

impl IntTree {
    /// The partition's contents as a map from key bytes to value bytes.
    pub closed spec fn entries(self) -> Map<Seq<u8>, Seq<u8>> {
        tree_entries(self.raw)
    }

    /// The stored integer under `key`, or `default_value` where no entry
    /// exists.
    pub fn get_or(&self, key: &[u8], default_value: i64) -> (r: Result<i64, StoreError>)
        ensures
            r matches Ok(v) ==> i64_wf_at(self.entries(), key@) && v == i64_at_or(
                self.entries(),
                key@,
                default_value,
            ),
            r matches Err(e) ==> match e {
                StoreError::DecodingError => !i64_wf_at(self.entries(), key@),
                StoreError::DatabaseError(_) => true,
            },
    {
        match tree_get(&self.raw, key) {
            Ok(Some(bytes)) => {
                if bytes.len() == 8 {
                    proof {
                        assert(bytes@.subrange(0, 8) =~= bytes@);
                    }
                    Ok(read_i64(&bytes, 0))
                } else {
                    Err(StoreError::DecodingError)
                }
            },
            Ok(None) => Ok(default_value),
            Err(e) => Err(StoreError::DatabaseError(e)),
        }
    }

    /// The stored integer under `key`, if there is one.
    pub fn get(&self, key: &[u8]) -> (r: Result<Option<i64>, StoreError>)
        ensures
            r matches Ok(Some(v)) ==> self.entries().contains_key(key@) && dec_i64(
                self.entries()[key@],
            ) == Some(v),
            r matches Ok(None) ==> !self.entries().contains_key(key@),
            r matches Err(e) ==> match e {
                StoreError::DecodingError => !i64_wf_at(self.entries(), key@),
                StoreError::DatabaseError(_) => true,
            },
    {
        match tree_get(&self.raw, key) {
            Ok(Some(bytes)) => {
                if bytes.len() == 8 {
                    proof {
                        assert(bytes@.subrange(0, 8) =~= bytes@);
                    }
                    Ok(Some(read_i64(&bytes, 0)))
                } else {
                    Err(StoreError::DecodingError)
                }
            },
            Ok(None) => Ok(None),
            Err(e) => Err(StoreError::DatabaseError(e)),
        }
    }

    /// Stores `value` under `key`.
    pub fn insert(&mut self, key: &[u8], value: i64) -> (r: Result<(), StoreError>)
        ensures
            r is Ok ==> final(self).entries() == old(self).entries().insert(
                key@,
                enc_i64(value as int),
            ),
            r matches Err(e) ==> e is DatabaseError,
    {
        let mut buf: Vec<u8> = Vec::new();
        push_i64(value, &mut buf);
        proof {
            assert(buf@ =~= enc_i64(value as int));
        }
        match tree_insert(&mut self.raw, key, buf) {
            Ok(()) => Ok(()),
            Err(e) => Err(StoreError::DatabaseError(e)),
        }
    }

    /// Removes the entry under `key`, returning the integer it held.
    pub fn remove(&mut self, key: &[u8]) -> (r: Result<Option<i64>, StoreError>)
        ensures
            r is Ok ==> final(self).entries() == old(self).entries().remove(key@),
            r matches Ok(Some(v)) ==> old(self).entries().contains_key(key@) && dec_i64(
                old(self).entries()[key@],
            ) == Some(v),
            r matches Ok(None) ==> !old(self).entries().contains_key(key@),
            r matches Err(e) ==> match e {
                StoreError::DecodingError => !i64_wf_at(old(self).entries(), key@),
                StoreError::DatabaseError(_) => true,
            },
    {
        match tree_remove(&mut self.raw, key) {
            Ok(Some(bytes)) => {
                if bytes.len() == 8 {
                    proof {
                        assert(bytes@.subrange(0, 8) =~= bytes@);
                        assert(old(self).entries().remove(key@) =~= final(self).entries());
                    }
                    Ok(Some(read_i64(&bytes, 0)))
                } else {
                    Err(StoreError::DecodingError)
                }
            },
            Ok(None) => {
                proof {
                    assert(old(self).entries().remove(key@) =~= final(self).entries());
                }
                Ok(None)
            },
            Err(e) => Err(StoreError::DatabaseError(e)),
        }
    }

    /// Removes every entry of the partition.
    pub fn clear(&mut self) -> (r: Result<(), StoreError>)
        ensures
            r is Ok ==> final(self).entries() == empty_entries(),
            r matches Err(e) ==> e is DatabaseError,
    {
        match tree_clear(&mut self.raw) {
            Ok(()) => Ok(()),
            Err(e) => Err(StoreError::DatabaseError(e)),
        }
    }
}

/// A partition of history logs keyed by identifier bytes.
pub struct MeasureTree {
    raw: sled::Tree,
}

impl MeasureTree {
    /// The partition's contents as a map from key bytes to value bytes.
    pub closed spec fn entries(self) -> Map<Seq<u8>, Seq<u8>> {
        tree_entries(self.raw)
    }

    /// The stored history log under `key`, or `default_value` where no
    /// entry exists.
    pub fn get_or(&self, key: &[u8], default_value: Vec<Measure>) -> (r: Result<
        Vec<Measure>,
        StoreError,
    >)
        ensures
            r matches Ok(v) ==> measures_wf_at(self.entries(), key@) && v@ == (
            if self.entries().contains_key(key@) {
                measures_at(self.entries(), key@)
            } else {
                default_value@
            }),
            r matches Err(e) ==> match e {
                StoreError::DecodingError => !measures_wf_at(self.entries(), key@),
                StoreError::DatabaseError(_) => true,
            },
    {
        match tree_get(&self.raw, key) {
            Ok(Some(bytes)) => match decode_measures(&bytes) {
                Some(v) => Ok(v),
                None => Err(StoreError::DecodingError),
            },
            Ok(None) => Ok(default_value),
            Err(e) => Err(StoreError::DatabaseError(e)),
        }
    }

    /// Stores `value` under `key`.
    pub fn insert(&mut self, key: &[u8], value: &Vec<Measure>) -> (r: Result<(), StoreError>)
        ensures
            r is Ok ==> final(self).entries() == old(self).entries().insert(
                key@,
                enc_measures(value@),
            ),
            r matches Err(e) ==> e is DatabaseError,
    {
        let buf: Vec<u8> = encode_measures(value);
        match tree_insert(&mut self.raw, key, buf) {
            Ok(()) => Ok(()),
            Err(e) => Err(StoreError::DatabaseError(e)),
        }
    }
}

/// A partition of membership lists keyed by identifier bytes.
pub struct MemberTree {
    raw: sled::Tree,
}

impl MemberTree {
    /// The partition's contents as a map from key bytes to value bytes.
    pub closed spec fn entries(self) -> Map<Seq<u8>, Seq<u8>> {
        tree_entries(self.raw)
    }

    /// The stored membership list under `key`, or `default_value` where
    /// no entry exists.
    pub fn get_or(&self, key: &[u8], default_value: Vec<u64>) -> (r: Result<Vec<u64>, StoreError>)
        ensures
            r matches Ok(v) ==> members_wf_at(self.entries(), key@) && v@ == (
            if self.entries().contains_key(key@) {
                members_at(self.entries(), key@)
            } else {
                default_value@
            }),
            r matches Err(e) ==> match e {
                StoreError::DecodingError => !members_wf_at(self.entries(), key@),
                StoreError::DatabaseError(_) => true,
            },
    {
        match tree_get(&self.raw, key) {
            Ok(Some(bytes)) => match decode_members(&bytes) {
                Some(v) => Ok(v),
                None => Err(StoreError::DecodingError),
            },
            Ok(None) => Ok(default_value),
            Err(e) => Err(StoreError::DatabaseError(e)),
        }
    }

    /// Stores `value` under `key`.
    pub fn insert(&mut self, key: &[u8], value: &Vec<u64>) -> (r: Result<(), StoreError>)
        ensures
            r is Ok ==> final(self).entries() == old(self).entries().insert(
                key@,
                enc_members(value@),
            ),
            r matches Err(e) ==> e is DatabaseError,
    {
        let buf: Vec<u8> = encode_members(value);
        match tree_insert(&mut self.raw, key, buf) {
            Ok(()) => Ok(()),
            Err(e) => Err(StoreError::DatabaseError(e)),
        }
    }
}

/// The whole keyed record store: one partition per entity kind.
pub struct Store {
    pub karma: IntTree,
    pub up: IntTree,
    pub down: IntTree,
    pub last: IntTree,
    pub last_message: IntTree,
    pub members: MemberTree,
    pub graph: MeasureTree,
}

/// The contents of every partition of a store, as maps from key bytes to
/// value bytes.
#[verifier::ext_equal]
pub struct StoreView {
    pub karma: Map<Seq<u8>, Seq<u8>>,
    pub up: Map<Seq<u8>, Seq<u8>>,
    pub down: Map<Seq<u8>, Seq<u8>>,
    pub last: Map<Seq<u8>, Seq<u8>>,
    pub last_message: Map<Seq<u8>, Seq<u8>>,
    pub members: Map<Seq<u8>, Seq<u8>>,
    pub graph: Map<Seq<u8>, Seq<u8>>,
}

impl View for Store {
    type V = StoreView;

    open spec fn view(&self) -> StoreView {
        StoreView {
            karma: self.karma.entries(),
            up: self.up.entries(),
            down: self.down.entries(),
            last: self.last.entries(),
            last_message: self.last_message.entries(),
            members: self.members.entries(),
            graph: self.graph.entries(),
        }
    }
}

impl Store {
    /// Opens the seven named partitions of `db`.
    pub fn new(db: sled::Db) -> (r: Result<Store, StoreError>)
    {
        match open_store(db) {
            Ok(s) => Ok(s),
            Err(e) => Err(StoreError::DatabaseError(e)),
        }
    }
}

} // verus!
