//! The credential store: pairing records keyed by a 128-bit identifier.
//! Every record binds the identifier to a 32-byte long-term public key and
//! an access level; identifiers are pairwise distinct.

use vstd::prelude::*;

use crate::bytes::copy_bytes;
use crate::permission::Permission;

verus! {

/// One stored pairing: a controller identifier, its long-term public key
/// and its access level.
pub struct PairingRecord {
    pub id: u128,
    pub public_key: Vec<u8>,
    pub permissions: Permission,
}

impl PairingRecord {
    /// A record is well formed when its key is exactly 32 bytes.
    pub open spec fn wf(self) -> bool {
        self.public_key@.len() == 32
    }
}

/// The in-memory credential set, in insertion order.
pub struct PairingStore {
    records: Vec<PairingRecord>,
}

impl View for PairingStore {
    type V = Seq<PairingRecord>;

    closed spec fn view(&self) -> Seq<PairingRecord> {
        self.records@
    }
}

impl PairingStore {
    /// Identifiers are pairwise distinct and every record is well formed.
    pub open spec fn wf(self) -> bool {
        &&& forall|i: int, j: int| 0 <= i < j < self@.len() ==> self@[i].id != self@[j].id
        &&& forall|i: int| 0 <= i < self@.len() ==> (#[trigger] self@[i]).wf()
    }

    /// Whether a record with this identifier is stored.
    pub open spec fn spec_contains(self, id: u128) -> bool {
        exists|i: int| 0 <= i < self@.len() && self@[i].id == id
    }

    /// The position of the record with this identifier.
    pub open spec fn spec_index_of(self, id: u128) -> int {
        choose|i: int| 0 <= i < self@.len() && self@[i].id == id
    }

    /// The stored record with this identifier.
    pub open spec fn spec_record(self, id: u128) -> PairingRecord {
        self@[self.spec_index_of(id)]
    }

    /// An empty store.
    pub fn new() -> (r: PairingStore)
        ensures
            r@ == Seq::<PairingRecord>::empty(),
            r.wf(),
    {
        PairingStore { records: Vec::new() }
    }

    /// How many records are stored.
    pub fn count(&self) -> (r: usize)
        ensures
            r == self@.len(),
    {
        self.records.len()
    }

    /// All records, in insertion order.
    pub fn list(&self) -> (r: &Vec<PairingRecord>)
        ensures
            r@ == self@,
    {
        &self.records
    }

    /// The record under an identifier, or nothing when none is stored.
    pub fn load(&self, id: u128) -> (r: Option<&PairingRecord>)
        requires
            self.wf(),
        ensures
            match r {
                Some(rec) => self.spec_contains(id) && *rec == self.spec_record(id),
                None => !self.spec_contains(id),
            },
    {
        let mut i: usize = 0;
        while i < self.records.len()
            invariant
                self.wf(),
                i <= self@.len(),
                forall|j: int| 0 <= j < i ==> self@[j].id != id,
            decreases self@.len() - i,
        {
            if self.records[i].id == id {
                proof {
                    let k = self.spec_index_of(id);
                    assert(0 <= k < self@.len() && self@[k].id == id);
                    assert(k == i as int);
                }
                return Some(&self.records[i]);
            }
            i = i + 1;
        }
        None
    }

    /// Persists a record: replaces the one stored under the same
    /// identifier, or appends a new one.
    pub fn save(&mut self, rec: PairingRecord)
        requires
            old(self).wf(),
            rec.wf(),
        ensures
            final(self).wf(),
            old(self).spec_contains(rec.id) ==> final(self)@ == old(self)@.update(
                old(self).spec_index_of(rec.id),
                rec,
            ),
            !old(self).spec_contains(rec.id) ==> final(self)@ == old(self)@.push(rec),
    {
        let ghost rec0 = rec;
        let mut i: usize = 0;
        while i < self.records.len()
            invariant
                self.wf(),
                *self == *old(self),
                rec == rec0,
                rec0.wf(),
                i <= self@.len(),
                forall|j: int| 0 <= j < i ==> self@[j].id != rec0.id,
            decreases self@.len() - i,
        {
            if self.records[i].id == rec.id {
                proof {
                    let k = self.spec_index_of(rec.id);
                    assert(0 <= k < self@.len() && self@[k].id == rec.id);
                    assert(k == i as int);
                }
                let ghost pre = self@;
                let ghost grec = rec;
                self.records[i] = rec;
                proof {
                    assert(self@ == pre.update(i as int, grec));
                    assert forall|a: int, b: int|
                        0 <= a < b < self@.len() implies self@[a].id != self@[b].id by {
                        assert(pre[a].id != pre[b].id);
                        assert(self@[a].id == if a == i as int {
                            grec.id
                        } else {
                            pre[a].id
                        });
                        assert(self@[b].id == if b == i as int {
                            grec.id
                        } else {
                            pre[b].id
                        });
                    }
                    assert forall|a: int| 0 <= a < self@.len() implies (#[trigger] self@[a]).wf() by {
                        if a == i as int {
                            assert(self@[a] == grec);
                            assert(grec.wf());
                        } else {
                            assert(self@[a] == pre[a]);
                            assert(pre[a].wf());
                        }
                    }
                }
                return ;
            }
            i = i + 1;
        }
        self.records.push(rec);
    }

    /// Removes the record under an identifier; removal of an absent
    /// identifier changes nothing.
    pub fn delete(&mut self, id: u128)
        requires
            old(self).wf(),
        ensures
            final(self).wf(),
            old(self).spec_contains(id) ==> final(self)@ == old(self)@.remove(
                old(self).spec_index_of(id),
            ),
            !old(self).spec_contains(id) ==> final(self)@ == old(self)@,
    {
        let mut i: usize = 0;
        while i < self.records.len()
            invariant
                self.wf(),
                *self == *old(self),
                i <= self@.len(),
                forall|j: int| 0 <= j < i ==> self@[j].id != id,
            decreases self@.len() - i,
        {
            if self.records[i].id == id {
                proof {
                    let k = self.spec_index_of(id);
                    assert(0 <= k < self@.len() && self@[k].id == id);
                    assert(k == i as int);
                }
                let ghost pre = self@;
                self.records.remove(i);
                proof {
                    assert(self@ =~= pre.subrange(0, i as int) + pre.subrange(
                        i as int + 1,
                        pre.len() as int,
                    ));
                    assert forall|a: int, b: int|
                        0 <= a < b < self@.len() implies self@[a].id != self@[b].id by {
                        let a0 = if a < i as int {
                            a
                        } else {
                            a + 1
                        };
                        let b0 = if b < i as int {
                            b
                        } else {
                            b + 1
                        };
                        assert(self@[a] == pre[a0] && self@[b] == pre[b0]);
                    }
                }
                return ;
            }
            i = i + 1;
        }
    }
}

/// An owned copy of a stored record.
pub fn duplicate_record(rec: &PairingRecord) -> (r: PairingRecord)
    ensures
        r.id == rec.id,
        r.public_key@ == rec.public_key@,
        r.permissions == rec.permissions,
{
    PairingRecord {
        id: rec.id,
        public_key: copy_bytes(rec.public_key.as_slice()),
        permissions: rec.permissions,
    }
}

} // verus!
