//! The sync coordinator: reconciles a mobile-reported snapshot of
//! structures and devices against the stored records.
//!
//! Matching is by (user, provider-assigned external id). A matched row is
//! updated in place; an unmatched one is created. The whole batch is one
//! idempotent reconciliation: replaying an identical batch produces no
//! additional rows, only timestamp churn.

use vstd::prelude::*;

use crate::command::CommandResult;
use crate::device::Device;
use crate::device::DeviceState;
use crate::device::DeviceSync;
use crate::device::DeviceSyncRequest;
use crate::device::Structure;
use crate::device::StructureSync;
use crate::lifecycle::pending_model;
use crate::lifecycle::spec_report_outcome;
use crate::lifecycle::POLL_BATCH_SIZE;
use crate::platform::fresh_id;
use crate::platform::now_epoch_seconds;
use crate::projector::spec_projected;
use crate::session::HeartbeatRequest;
use crate::session::HeartbeatResponse;
use crate::session::MobileSession;
use crate::store::devices_wf;
use crate::store::sessions_wf;
use crate::store::structures_wf;
use crate::store::unchanged_except_commands_and_states;
use crate::store::unchanged_except_sessions;
use crate::store::unchanged_except_sync_tables;
use crate::store::Store;
use crate::store::StoreView;
use crate::CoreError;

verus! {

/// Whether a structure row with the (user, external id) key exists.
pub open spec fn spec_has_structure(ss: Seq<Structure>, user: u128, ext: Seq<char>) -> bool {
    exists|i: int|
        0 <= i < ss.len() && (#[trigger] ss[i]).user_id == user && ss[i].google_structure_id@
            == ext
}

/// Whether a device row with the (user, external id) key exists.
pub open spec fn spec_has_device(ds: Seq<Device>, user: u128, ext: Seq<char>) -> bool {
    exists|i: int|
        0 <= i < ds.len() && (#[trigger] ds[i]).user_id == user && ds[i].google_device_id@ == ext
}

/// Whether a session row with the (user, device token) key exists.
pub open spec fn spec_has_session(ss: Seq<MobileSession>, user: u128, token: Seq<char>) -> bool {
    exists|i: int|
        0 <= i < ss.len() && (#[trigger] ss[i]).user_id == user && ss[i].device_token@ == token
}

/// Whether any device row carries id `id` (for any user).
pub open spec fn spec_device_id_taken(ds: Seq<Device>, id: u128) -> bool {
    exists|i: int| 0 <= i < ds.len() && (#[trigger] ds[i]).id == id
}

/// How a device's structure reference resolves against the structure table:
/// no reference resolves to no link; a reference resolves to the matched
/// structure's id, or to no link when nothing matches (an unresolved
/// reference is not an error).
pub open spec fn spec_resolves(
    ss: Seq<Structure>,
    user: u128,
    ext: Option<String>,
    sid: Option<u128>,
) -> bool {
    match ext {
        None => sid is None,
        Some(e) => match sid {
            None => !spec_has_structure(ss, user, e@),
            Some(s) => exists|i: int|
                0 <= i < ss.len() && (#[trigger] ss[i]).user_id == user
                    && ss[i].google_structure_id@ == e@ && ss[i].id == s,
        },
    }
}

/// The external-id keys of a reported structure list, in order.
pub open spec fn structure_keys_of(items: Seq<StructureSync>) -> Seq<Seq<char>> {
    items.map_values(|x: StructureSync| x.google_structure_id@)
}

/// The external-id keys of a reported device list, in order.
pub open spec fn device_keys_of(items: Seq<DeviceSync>) -> Seq<Seq<char>> {
    items.map_values(|x: DeviceSync| x.google_device_id@)
}

/// The set of structure keys `user` already has rows for.
pub open spec fn structure_key_set(ss: Seq<Structure>, user: u128) -> Set<Seq<char>> {
    Set::new(|e: Seq<char>| spec_has_structure(ss, user, e))
}

/// The set of device keys `user` already has rows for.
pub open spec fn device_key_set(ds: Seq<Device>, user: u128) -> Set<Seq<char>> {
    Set::new(|e: Seq<char>| spec_has_device(ds, user, e))
}

/// No item of the batch at `k` or later, below `upto`, repeats item `k`'s
/// device key; with `upto` the batch length, item `k` is the key's last
/// (authoritative) report — among duplicates, the last one wins.
pub open spec fn is_last_key_below(items: Seq<DeviceSync>, k: int, upto: int) -> bool {
    forall|l: int|
        k < l < upto ==> (#[trigger] items[l]).google_device_id@ != items[k].google_device_id@
}

/// Every device of the batch had its state projected at time `t`: for
/// each item that is the last report of its key, the stored state record
/// holds that item's document.
pub open spec fn spec_batch_states_written(
    s: StoreView,
    user: u128,
    items: Seq<DeviceSync>,
    t: i64,
) -> bool {
    forall|k: int|
        0 <= k < items.len() && is_last_key_below(items, k, items.len() as int)
            ==> #[trigger] spec_state_written(s, user, items[k], t)
}

/// The device reported by `d` exists for `user`, and its single state
/// record holds exactly the embedded document, stamped `now`: the
/// projector ran for this report.
pub open spec fn spec_state_written(s: StoreView, user: u128, d: DeviceSync, now: i64) -> bool {
    exists|di: int|
        0 <= di < s.devices.len() && (#[trigger] s.devices[di]).user_id == user
            && s.devices[di].google_device_id@ == d.google_device_id@ && exists|si: int|
            0 <= si < s.states.len() && (#[trigger] s.states[si]).device_id == s.devices[di].id
                && s.states[si].state_json == d.state && s.states[si].updated_at == now
}

/// How many rows reconciling `keys` left to right adds to a store whose
/// key set is `present`: one per key that is neither stored yet nor a
/// duplicate of an earlier key in the batch.
pub open spec fn added_count(present: Set<Seq<char>>, keys: Seq<Seq<char>>) -> nat
    decreases keys.len(),
{
    if keys.len() == 0 {
        0
    } else {
        (if present.contains(keys.first()) {
            0nat
        } else {
            1nat
        }) + added_count(present.insert(keys.first()), keys.drop_first())
    }
}

/// Appending a key to a batch adds one more row exactly when the key is
/// neither stored nor anywhere in the batch before it.
proof fn lemma_added_count_push(p: Set<Seq<char>>, ks: Seq<Seq<char>>, x: Seq<char>)
    ensures
        added_count(p, ks.push(x)) == added_count(p, ks) + (if p.union(ks.to_set()).contains(x) {
            0nat
        } else {
            1nat
        }),
    decreases ks.len(),
{
    reveal_with_fuel(added_count, 3);
    if ks.len() == 0 {
        assert(ks.push(x).first() == x);
        assert(ks.push(x).drop_first() =~= Seq::<Seq<char>>::empty());
        assert(ks.to_set() =~= Set::<Seq<char>>::empty());
        assert(p.union(ks.to_set()) =~= p);
    } else {
        let s = ks.push(x);
        assert(s.first() == ks.first());
        assert(s.drop_first() =~= ks.drop_first().push(x));
        lemma_added_count_push(p.insert(ks.first()), ks.drop_first(), x);
        assert(p.insert(ks.first()).union(ks.drop_first().to_set()) =~= p.union(ks.to_set())) by {
            assert forall|e: Seq<char>| #[trigger] ks.to_set().contains(e) implies e == ks.first()
                || ks.drop_first().to_set().contains(e) by {
                let i = choose|i: int| 0 <= i < ks.len() && ks[i] == e;
                if i > 0 {
                    assert(ks.drop_first()[i - 1] == e);
                    assert(ks.drop_first().contains(e));
                }
            }
            assert forall|e: Seq<char>| #[trigger] ks.drop_first().to_set().contains(e) implies
                ks.to_set().contains(e) by {
                let i = choose|i: int| 0 <= i < ks.drop_first().len() && ks.drop_first()[i] == e;
                assert(ks[i + 1] == e);
            }
            assert(ks.to_set().contains(ks.first()));
        }
    }
}

/// A batch whose keys are all already present adds no rows: the heart of
/// sync idempotence.
pub proof fn lemma_added_count_zero(p: Set<Seq<char>>, ks: Seq<Seq<char>>)
    requires
        forall|k: int| 0 <= k < ks.len() ==> p.contains(#[trigger] ks[k]),
    ensures
        added_count(p, ks) == 0,
    decreases ks.len(),
{
    if ks.len() > 0 {
        assert(p.contains(ks[0]));
        assert(p.insert(ks.first()) =~= p);
        assert(forall|k: int|
            0 <= k < ks.drop_first().len() ==> p.contains(#[trigger] ks.drop_first()[k]));
        lemma_added_count_zero(p, ks.drop_first());
    }
}

/// Sync idempotence: once every structure and device of a batch has a
/// matching row (as any run of `sync_batch` on that batch ensures),
/// replaying the identical batch adds zero structure rows and zero device
/// rows, so the row counts after the replay equal the counts before it.
pub proof fn lemma_sync_batch_idempotent(
    structures: Seq<Structure>,
    devices: Seq<Device>,
    user: u128,
    req: DeviceSyncRequest,
)
    requires
        forall|k: int|
            0 <= k < req.structures@.len() ==> spec_has_structure(
                structures,
                user,
                (#[trigger] req.structures@[k]).google_structure_id@,
            ),
        forall|k: int|
            0 <= k < req.devices@.len() ==> spec_has_device(
                devices,
                user,
                (#[trigger] req.devices@[k]).google_device_id@,
            ),
    ensures
        added_count(structure_key_set(structures, user), structure_keys_of(req.structures@)) == 0,
        added_count(device_key_set(devices, user), device_keys_of(req.devices@)) == 0,
{
    let sk = structure_keys_of(req.structures@);
    assert(forall|k: int|
        0 <= k < sk.len() ==> structure_key_set(structures, user).contains(#[trigger] sk[k]));
    lemma_added_count_zero(structure_key_set(structures, user), sk);
    let dk = device_keys_of(req.devices@);
    assert(forall|k: int|
        0 <= k < dk.len() ==> device_key_set(devices, user).contains(#[trigger] dk[k]));
    lemma_added_count_zero(device_key_set(devices, user), dk);
}

/// Updating a row in place without touching its (user, external id) key
/// leaves the key set unchanged.
proof fn lemma_structure_keys_update(ss: Seq<Structure>, i: int, r: Structure, user: u128)
    requires
        0 <= i < ss.len(),
        r.user_id == ss[i].user_id,
        r.google_structure_id@ == ss[i].google_structure_id@,
    ensures
        structure_key_set(ss.update(i, r), user) == structure_key_set(ss, user),
{
    let a = ss.update(i, r);
    assert forall|e: Seq<char>| #[trigger] spec_has_structure(a, user, e) implies
        spec_has_structure(ss, user, e) by {
        let j = choose|j: int|
            0 <= j < a.len() && (#[trigger] a[j]).user_id == user && a[j].google_structure_id@
                == e;
        if j == i {
            assert(ss[i].user_id == user && ss[i].google_structure_id@ == e);
        } else {
            assert(ss[j].user_id == user && ss[j].google_structure_id@ == e);
        }
    }
    assert forall|e: Seq<char>| #[trigger] spec_has_structure(ss, user, e) implies
        spec_has_structure(a, user, e) by {
        let j = choose|j: int|
            0 <= j < ss.len() && (#[trigger] ss[j]).user_id == user && ss[j].google_structure_id@
                == e;
        if j == i {
            assert(a[i].user_id == user && a[i].google_structure_id@ == e);
        } else {
            assert(a[j].user_id == user && a[j].google_structure_id@ == e);
        }
    }
    assert(structure_key_set(a, user) =~= structure_key_set(ss, user));
}

/// Appending a row for `user` adds exactly its key to the key set.
proof fn lemma_structure_keys_push(ss: Seq<Structure>, r: Structure, user: u128)
    requires
        r.user_id == user,
    ensures
        structure_key_set(ss.push(r), user) == structure_key_set(ss, user).insert(
            r.google_structure_id@,
        ),
{
    let a = ss.push(r);
    assert forall|e: Seq<char>| #[trigger] spec_has_structure(a, user, e) implies
        spec_has_structure(ss, user, e) || e == r.google_structure_id@ by {
        let j = choose|j: int|
            0 <= j < a.len() && (#[trigger] a[j]).user_id == user && a[j].google_structure_id@
                == e;
        if j < ss.len() {
            assert(ss[j].user_id == user && ss[j].google_structure_id@ == e);
        }
    }
    assert(spec_has_structure(a, user, r.google_structure_id@)) by {
        assert((a[ss.len() as int]).user_id == user);
    }
    assert forall|e: Seq<char>| #[trigger] spec_has_structure(ss, user, e) implies
        spec_has_structure(a, user, e) by {
        let j = choose|j: int|
            0 <= j < ss.len() && (#[trigger] ss[j]).user_id == user && ss[j].google_structure_id@
                == e;
        assert(a[j].user_id == user && a[j].google_structure_id@ == e);
    }
    assert(structure_key_set(a, user) =~= structure_key_set(ss, user).insert(
        r.google_structure_id@,
    ));
}

/// Updating a device row in place without touching its key leaves the
/// device key set unchanged.
proof fn lemma_device_keys_update(ds: Seq<Device>, i: int, r: Device, user: u128)
    requires
        0 <= i < ds.len(),
        r.user_id == ds[i].user_id,
        r.google_device_id@ == ds[i].google_device_id@,
    ensures
        device_key_set(ds.update(i, r), user) == device_key_set(ds, user),
{
    let a = ds.update(i, r);
    assert forall|e: Seq<char>| #[trigger] spec_has_device(a, user, e) implies spec_has_device(
        ds,
        user,
        e,
    ) by {
        let j = choose|j: int|
            0 <= j < a.len() && (#[trigger] a[j]).user_id == user && a[j].google_device_id@ == e;
        if j == i {
            assert(ds[i].user_id == user && ds[i].google_device_id@ == e);
        } else {
            assert(ds[j].user_id == user && ds[j].google_device_id@ == e);
        }
    }
    assert forall|e: Seq<char>| #[trigger] spec_has_device(ds, user, e) implies spec_has_device(
        a,
        user,
        e,
    ) by {
        let j = choose|j: int|
            0 <= j < ds.len() && (#[trigger] ds[j]).user_id == user && ds[j].google_device_id@
                == e;
        if j == i {
            assert(a[i].user_id == user && a[i].google_device_id@ == e);
        } else {
            assert(a[j].user_id == user && a[j].google_device_id@ == e);
        }
    }
    assert(device_key_set(a, user) =~= device_key_set(ds, user));
}

/// Appending a device row for `user` adds exactly its key to the key set.
proof fn lemma_device_keys_push(ds: Seq<Device>, r: Device, user: u128)
    requires
        r.user_id == user,
    ensures
        device_key_set(ds.push(r), user) == device_key_set(ds, user).insert(r.google_device_id@),
{
    let a = ds.push(r);
    assert forall|e: Seq<char>| #[trigger] spec_has_device(a, user, e) implies spec_has_device(
        ds,
        user,
        e,
    ) || e == r.google_device_id@ by {
        let j = choose|j: int|
            0 <= j < a.len() && (#[trigger] a[j]).user_id == user && a[j].google_device_id@ == e;
        if j < ds.len() {
            assert(ds[j].user_id == user && ds[j].google_device_id@ == e);
        }
    }
    assert(spec_has_device(a, user, r.google_device_id@)) by {
        assert((a[ds.len() as int]).user_id == user);
    }
    assert forall|e: Seq<char>| #[trigger] spec_has_device(ds, user, e) implies spec_has_device(
        a,
        user,
        e,
    ) by {
        let j = choose|j: int|
            0 <= j < ds.len() && (#[trigger] ds[j]).user_id == user && ds[j].google_device_id@
                == e;
        assert(a[j].user_id == user && a[j].google_device_id@ == e);
    }
    assert(device_key_set(a, user) =~= device_key_set(ds, user).insert(r.google_device_id@));
}

impl Store {
    /// The index of the structure row matching (user, external id), if any.
    fn find_structure_index(&self, user: u128, ext: &String) -> (r: Option<usize>)
        ensures
            match r {
                Some(i) => i < self@.structures.len() && self@.structures[i as int].user_id == user
                    && self@.structures[i as int].google_structure_id@ == ext@,
                None => !spec_has_structure(self@.structures, user, ext@),
            },
    {
        let mut i: usize = 0;
        while i < self.structures.len()
            invariant
                i <= self.structures.len(),
                forall|j: int|
                    0 <= j < i ==> !((#[trigger] self@.structures[j]).user_id == user
                        && self@.structures[j].google_structure_id@ == ext@),
            decreases self.structures.len() - i,
        {
            if self.structures[i].user_id == user && self.structures[i].google_structure_id
                == *ext {
                return Some(i);
            }
            i = i + 1;
        }
        None
    }

    /// The index of the device row matching (user, external id), if any.
    fn find_device_key_index(&self, user: u128, ext: &String) -> (r: Option<usize>)
        ensures
            match r {
                Some(i) => i < self@.devices.len() && self@.devices[i as int].user_id == user
                    && self@.devices[i as int].google_device_id@ == ext@,
                None => !spec_has_device(self@.devices, user, ext@),
            },
    {
        let mut i: usize = 0;
        while i < self.devices.len()
            invariant
                i <= self.devices.len(),
                forall|j: int|
                    0 <= j < i ==> !((#[trigger] self@.devices[j]).user_id == user
                        && self@.devices[j].google_device_id@ == ext@),
            decreases self.devices.len() - i,
        {
            if self.devices[i].user_id == user && self.devices[i].google_device_id == *ext {
                return Some(i);
            }
            i = i + 1;
        }
        None
    }

    /// Whether any device row carries id `id`.
    fn device_id_taken(&self, id: u128) -> (r: bool)
        ensures
            r == spec_device_id_taken(self@.devices, id),
    {
        let mut i: usize = 0;
        while i < self.devices.len()
            invariant
                i <= self.devices.len(),
                forall|j: int| 0 <= j < i ==> (#[trigger] self@.devices[j]).id != id,
            decreases self.devices.len() - i,
        {
            if self.devices[i].id == id {
                return true;
            }
            i = i + 1;
        }
        false
    }

    /// The index of the session row matching (user, device token), if any.
    fn find_session_index(&self, user: u128, token: &String) -> (r: Option<usize>)
        ensures
            match r {
                Some(i) => i < self@.sessions.len() && self@.sessions[i as int].user_id == user
                    && self@.sessions[i as int].device_token@ == token@,
                None => !spec_has_session(self@.sessions, user, token@),
            },
    {
        let mut i: usize = 0;
        while i < self.sessions.len()
            invariant
                i <= self.sessions.len(),
                forall|j: int|
                    0 <= j < i ==> !((#[trigger] self@.sessions[j]).user_id == user
                        && self@.sessions[j].device_token@ == token@),
            decreases self.sessions.len() - i,
        {
            if self.sessions[i].user_id == user && self.sessions[i].device_token == *token {
                return Some(i);
            }
            i = i + 1;
        }
        None
    }

    /// Reconciles one reported structure: updates the name of the matched
    /// row, or creates a row under a fresh id. Returns the row as stored.
    pub fn upsert_structure(&mut self, user: u128, s: StructureSync, now: i64) -> (r: Structure)
        requires
            old(self).wf(),
        ensures
            final(self).wf(),
            unchanged_except_sync_tables(old(self)@, final(self)@),
            final(self)@.devices == old(self)@.devices,
            final(self)@.states == old(self)@.states,
            if spec_has_structure(old(self)@.structures, user, s.google_structure_id@) {
                exists|i: int|
                    0 <= i < old(self)@.structures.len() && (#[trigger] old(
                        self,
                    )@.structures[i]).user_id == user && old(self)@.structures[i].google_structure_id@
                        == s.google_structure_id@ && final(self)@.structures == old(
                        self,
                    )@.structures.update(
                        i,
                        Structure { name: s.name, updated_at: now, ..old(self)@.structures[i] },
                    ) && r == final(self)@.structures[i]
            } else {
                exists|sid: u128|
                    final(self)@.structures == old(self)@.structures.push(
                        Structure {
                            id: sid,
                            user_id: user,
                            google_structure_id: s.google_structure_id,
                            name: s.name,
                            created_at: now,
                            updated_at: now,
                        },
                    ) && r == final(self)@.structures.last()
            },
    {
        match self.find_structure_index(user, &s.google_structure_id) {
            Some(i) => {
                let ghost pre = self@.structures;
                let mut row = self.structures.remove(i);
                row.name = s.name;
                row.updated_at = now;
                let ret = row.clone();
                self.structures.insert(i, row);
                proof {
                    assert(self@.structures =~= pre.update(
                        i as int,
                        Structure { name: s.name, updated_at: now, ..pre[i as int] },
                    ));
                    assert(structures_wf(self@.structures));
                }
                ret
            },
            None => {
                let sid = fresh_id();
                let row = Structure {
                    id: sid,
                    user_id: user,
                    google_structure_id: s.google_structure_id,
                    name: s.name,
                    created_at: now,
                    updated_at: now,
                };
                let ret = row.clone();
                self.structures.push(row);
                proof {
                    assert(structures_wf(self@.structures));
                }
                ret
            },
        }
    }

    /// Reconciles one reported device: resolves its structure reference
    /// within the user's scope, updates the mutable fields of the matched
    /// row, or creates a row under a fresh id; either way the embedded
    /// state document is projected onto the device's state record.
    /// `StorageConflict` only in the (random, vanishingly unlikely) event
    /// that a freshly drawn device id is already taken.
    pub fn upsert_device(&mut self, user: u128, d: DeviceSync, now: i64) -> (r: Result<
        Device,
        CoreError,
    >)
        requires
            old(self).wf(),
        ensures
            final(self).wf(),
            unchanged_except_sync_tables(old(self)@, final(self)@),
            final(self)@.structures == old(self)@.structures,
            match r {
                Ok(dev) => spec_resolves(
                    old(self)@.structures,
                    user,
                    d.structure_id,
                    dev.structure_id,
                ) && if spec_has_device(old(self)@.devices, user, d.google_device_id@) {
                    exists|i: int|
                        0 <= i < old(self)@.devices.len() && (#[trigger] old(
                            self,
                        )@.devices[i]).user_id == user && old(self)@.devices[i].google_device_id@
                            == d.google_device_id@ && final(self)@.devices == old(
                            self,
                        )@.devices.update(
                            i,
                            Device {
                                name: d.name,
                                device_type: d.device_type,
                                room: d.room,
                                structure_id: dev.structure_id,
                                capabilities_json: d.capabilities,
                                last_seen_at: now,
                                updated_at: now,
                                ..old(self)@.devices[i]
                            },
                        ) && dev == final(self)@.devices[i] && spec_projected(
                            old(self)@.states,
                            final(self)@.states,
                            old(self)@.devices[i].id,
                            d.state,
                            now,
                        )
                } else {
                    &&& !spec_device_id_taken(old(self)@.devices, dev.id)
                    &&& dev == (Device {
                        id: dev.id,
                        user_id: user,
                        structure_id: dev.structure_id,
                        google_device_id: d.google_device_id,
                        name: d.name,
                        device_type: d.device_type,
                        room: d.room,
                        capabilities_json: d.capabilities,
                        last_seen_at: now,
                        created_at: now,
                        updated_at: now,
                    })
                    &&& final(self)@.devices == old(self)@.devices.push(dev)
                    &&& spec_projected(old(self)@.states, final(self)@.states, dev.id, d.state, now)
                },
                Err(e) => e == CoreError::StorageConflict && final(self)@ == old(self)@
                    && !spec_has_device(old(self)@.devices, user, d.google_device_id@),
            },
    {
        let struct_id: Option<u128> = match &d.structure_id {
            Some(ext) => match self.find_structure_index(user, ext) {
                Some(i) => Some(self.structures[i].id),
                None => None,
            },
            None => None,
        };
        match self.find_device_key_index(user, &d.google_device_id) {
            Some(i) => {
                let ghost pre = self@.devices;
                let mut row = self.devices.remove(i);
                let device_id = row.id;
                row.name = d.name;
                row.device_type = d.device_type;
                row.room = d.room;
                row.structure_id = struct_id;
                row.capabilities_json = d.capabilities;
                row.last_seen_at = now;
                row.updated_at = now;
                let ret = row.clone();
                self.devices.insert(i, row);
                proof {
                    assert(self@.devices =~= pre.update(
                        i as int,
                        Device {
                            name: d.name,
                            device_type: d.device_type,
                            room: d.room,
                            structure_id: struct_id,
                            capabilities_json: d.capabilities,
                            last_seen_at: now,
                            updated_at: now,
                            ..pre[i as int]
                        },
                    ));
                    assert(devices_wf(self@.devices));
                }
                self.apply_mobile_snapshot(device_id, d.state, now);
                Ok(ret)
            },
            None => {
                let did = fresh_id();
                if self.device_id_taken(did) {
                    return Err(CoreError::StorageConflict);
                }
                let row = Device {
                    id: did,
                    user_id: user,
                    structure_id: struct_id,
                    google_device_id: d.google_device_id,
                    name: d.name,
                    device_type: d.device_type,
                    room: d.room,
                    capabilities_json: d.capabilities,
                    last_seen_at: now,
                    created_at: now,
                    updated_at: now,
                };
                let ret = row.clone();
                self.devices.push(row);
                proof {
                    assert(devices_wf(self@.devices));
                }
                self.apply_mobile_snapshot(did, d.state, now);
                Ok(ret)
            },
        }
    }

    /// Reconciles a full mobile snapshot against the stored records, at
    /// time `now`: structures first, then devices. The batch is one
    /// idempotent reconciliation; afterwards every reported structure and
    /// device has a matching row, and the row counts grow by exactly the
    /// number of reported keys that were new. Returns how many devices
    /// were synced.
    pub fn sync_batch(&mut self, user: u128, req: DeviceSyncRequest, now: i64) -> (r: Result<
        usize,
        CoreError,
    >)
        requires
            old(self).wf(),
        ensures
            final(self).wf(),
            unchanged_except_sync_tables(old(self)@, final(self)@),
            match r {
                Ok(n) => {
                    &&& n == req.devices@.len()
                    &&& final(self)@.structures.len() == old(self)@.structures.len() + added_count(
                        structure_key_set(old(self)@.structures, user),
                        structure_keys_of(req.structures@),
                    )
                    &&& final(self)@.devices.len() == old(self)@.devices.len() + added_count(
                        device_key_set(old(self)@.devices, user),
                        device_keys_of(req.devices@),
                    )
                    &&& forall|k: int|
                        0 <= k < req.structures@.len() ==> spec_has_structure(
                            final(self)@.structures,
                            user,
                            (#[trigger] req.structures@[k]).google_structure_id@,
                        )
                    &&& forall|k: int|
                        0 <= k < req.devices@.len() ==> spec_has_device(
                            final(self)@.devices,
                            user,
                            (#[trigger] req.devices@[k]).google_device_id@,
                        )
                    &&& spec_batch_states_written(final(self)@, user, req.devices@, now)
                },
                Err(e) => e == CoreError::StorageConflict && exists|k: int|
                    0 <= k < req.devices@.len() && !spec_has_device(
                        old(self)@.devices,
                        user,
                        (#[trigger] req.devices@[k]).google_device_id@,
                    ),
            },
    {
        let ghost k0 = structure_key_set(old(self)@.structures, user);
        let ghost skeys = structure_keys_of(req.structures@);
        let ghost base_len = self@.structures.len();
        let mut k: usize = 0;
        while k < req.structures.len()
            invariant
                self.wf(),
                k <= req.structures@.len(),
                unchanged_except_sync_tables(old(self)@, self@),
                self@.devices == old(self)@.devices,
                self@.states == old(self)@.states,
                k0 == structure_key_set(old(self)@.structures, user),
                skeys == structure_keys_of(req.structures@),
                base_len == old(self)@.structures.len(),
                self@.structures.len() == base_len + added_count(k0, skeys.subrange(0, k as int)),
                structure_key_set(self@.structures, user) == k0.union(
                    skeys.subrange(0, k as int).to_set(),
                ),
            decreases req.structures@.len() - k,
        {
            let ghost prefix = skeys.subrange(0, k as int);
            let ghost key_k = skeys[k as int];
            proof {
                assert(skeys.subrange(0, k + 1 as int) =~= prefix.push(key_k));
                lemma_added_count_push(k0, prefix, key_k);
                assert(prefix.push(key_k).to_set() =~= prefix.to_set().insert(key_k)) by {
                    assert forall|e: Seq<char>| #[trigger] prefix.push(key_k).contains(e) implies
                        prefix.contains(e) || e == key_k by {
                        let i = choose|i: int|
                            0 <= i < prefix.push(key_k).len() && prefix.push(key_k)[i] == e;
                        if i < prefix.len() {
                            assert(prefix[i] == e);
                        }
                    }
                    assert(prefix.push(key_k)[prefix.len() as int] == key_k);
                    assert forall|e: Seq<char>| #[trigger] prefix.contains(e) implies
                        prefix.push(key_k).contains(e) by {
                        let i = choose|i: int| 0 <= i < prefix.len() && prefix[i] == e;
                        assert(prefix.push(key_k)[i] == e);
                    }
                }
            }
            let item = req.structures[k].clone();
            assert(item.google_structure_id@ == key_k);
            let ghost pre_structures = self@.structures;
            let _row = self.upsert_structure(user, item, now);
            proof {
                if spec_has_structure(pre_structures, user, key_k) {
                    assert(structure_key_set(pre_structures, user).contains(key_k));
                    assert(k0.union(prefix.to_set()).contains(key_k));
                    let i = choose|i: int|
                        0 <= i < pre_structures.len() && (#[trigger] pre_structures[i]).user_id
                            == user && pre_structures[i].google_structure_id@ == key_k
                            && self@.structures == pre_structures.update(
                            i,
                            Structure {
                                name: _row.name,
                                updated_at: now,
                                ..pre_structures[i]
                            },
                        );
                    lemma_structure_keys_update(
                        pre_structures,
                        i,
                        Structure { name: _row.name, updated_at: now, ..pre_structures[i] },
                        user,
                    );
                } else {
                    assert(!k0.union(prefix.to_set()).contains(key_k));
                    let sid = choose|sid: u128|
                        self@.structures == pre_structures.push(
                            Structure {
                                id: sid,
                                user_id: user,
                                google_structure_id: _row.google_structure_id,
                                name: _row.name,
                                created_at: now,
                                updated_at: now,
                            },
                        );
                    lemma_structure_keys_push(
                        pre_structures,
                        Structure {
                            id: sid,
                            user_id: user,
                            google_structure_id: _row.google_structure_id,
                            name: _row.name,
                            created_at: now,
                            updated_at: now,
                        },
                        user,
                    );
                }
                assert(structure_key_set(self@.structures, user) =~= k0.union(
                    skeys.subrange(0, k + 1 as int).to_set(),
                ));
            }
            k = k + 1;
        }
        proof {
            assert(skeys.subrange(0, skeys.len() as int) =~= skeys);
        }
        let ghost mid = self@;
        let ghost d0 = device_key_set(old(self)@.devices, user);
        let ghost dkeys = device_keys_of(req.devices@);
        let ghost dev_base = self@.devices.len();
        let mut k: usize = 0;
        while k < req.devices.len()
            invariant
                self.wf(),
                k <= req.devices@.len(),
                unchanged_except_sync_tables(old(self)@, self@),
                self@.structures == mid.structures,
                mid.structures.len() == old(self)@.structures.len() + added_count(
                    k0,
                    structure_keys_of(req.structures@),
                ),
                k0 == structure_key_set(old(self)@.structures, user),
                structure_key_set(mid.structures, user) == k0.union(
                    structure_keys_of(req.structures@).to_set(),
                ),
                d0 == device_key_set(old(self)@.devices, user),
                dkeys == device_keys_of(req.devices@),
                dev_base == old(self)@.devices.len(),
                self@.devices.len() == dev_base + added_count(d0, dkeys.subrange(0, k as int)),
                device_key_set(self@.devices, user) == d0.union(
                    dkeys.subrange(0, k as int).to_set(),
                ),
                forall|k2: int|
                    0 <= k2 < k && is_last_key_below(req.devices@, k2, k as int)
                        ==> #[trigger] spec_state_written(self@, user, req.devices@[k2], now),
            decreases req.devices@.len() - k,
        {
            let ghost prefix = dkeys.subrange(0, k as int);
            let ghost key_k = dkeys[k as int];
            proof {
                assert(dkeys.subrange(0, k + 1 as int) =~= prefix.push(key_k));
                lemma_added_count_push(d0, prefix, key_k);
                assert(prefix.push(key_k).to_set() =~= prefix.to_set().insert(key_k)) by {
                    assert forall|e: Seq<char>| #[trigger] prefix.push(key_k).contains(e) implies
                        prefix.contains(e) || e == key_k by {
                        let i = choose|i: int|
                            0 <= i < prefix.push(key_k).len() && prefix.push(key_k)[i] == e;
                        if i < prefix.len() {
                            assert(prefix[i] == e);
                        }
                    }
                    assert(prefix.push(key_k)[prefix.len() as int] == key_k);
                    assert forall|e: Seq<char>| #[trigger] prefix.contains(e) implies
                        prefix.push(key_k).contains(e) by {
                        let i = choose|i: int| 0 <= i < prefix.len() && prefix[i] == e;
                        assert(prefix.push(key_k)[i] == e);
                    }
                }
            }
            let item = req.devices[k].clone();
            assert(item.google_device_id@ == key_k);
            let ghost pre_devices = self@.devices;
            let ghost pre_view = self@;
            match self.upsert_device(user, item, now) {
                Ok(dev) => {
                    proof {
                        if spec_has_device(pre_devices, user, key_k) {
                            assert(device_key_set(pre_devices, user).contains(key_k));
                            assert(d0.union(prefix.to_set()).contains(key_k));
                            let i = choose|i: int|
                                0 <= i < pre_devices.len() && (#[trigger] pre_devices[i]).user_id
                                    == user && pre_devices[i].google_device_id@ == key_k
                                    && self@.devices == pre_devices.update(
                                    i,
                                    Device {
                                        name: dev.name,
                                        device_type: dev.device_type,
                                        room: dev.room,
                                        structure_id: dev.structure_id,
                                        capabilities_json: dev.capabilities_json,
                                        last_seen_at: now,
                                        updated_at: now,
                                        ..pre_devices[i]
                                    },
                                );
                            lemma_device_keys_update(
                                pre_devices,
                                i,
                                Device {
                                    name: dev.name,
                                    device_type: dev.device_type,
                                    room: dev.room,
                                    structure_id: dev.structure_id,
                                    capabilities_json: dev.capabilities_json,
                                    last_seen_at: now,
                                    updated_at: now,
                                    ..pre_devices[i]
                                },
                                user,
                            );
                        } else {
                            assert(!d0.union(prefix.to_set()).contains(key_k));
                            assert(self@.devices == pre_devices.push(dev));
                            lemma_device_keys_push(pre_devices, dev, user);
                        }
                        assert(device_key_set(self@.devices, user) =~= d0.union(
                            dkeys.subrange(0, k + 1 as int).to_set(),
                        ));
                        assert(devices_wf(pre_view.devices));
                        // the processed item's device row and target state row
                        let ghost upd = Device {
                            name: dev.name,
                            device_type: dev.device_type,
                            room: dev.room,
                            structure_id: dev.structure_id,
                            capabilities_json: dev.capabilities_json,
                            last_seen_at: now,
                            updated_at: now,
                            ..pre_devices[0]
                        };
                        let matched = spec_has_device(pre_devices, user, key_k);
                        let di_new: int = if matched {
                            choose|i: int|
                                0 <= i < pre_devices.len() && (#[trigger] pre_devices[i]).user_id
                                    == user && pre_devices[i].google_device_id@ == key_k
                                    && self@.devices == pre_devices.update(
                                    i,
                                    Device {
                                        name: dev.name,
                                        device_type: dev.device_type,
                                        room: dev.room,
                                        structure_id: dev.structure_id,
                                        capabilities_json: dev.capabilities_json,
                                        last_seen_at: now,
                                        updated_at: now,
                                        ..pre_devices[i]
                                    },
                                ) && dev == self@.devices[i] && spec_projected(
                                    pre_view.states,
                                    self@.states,
                                    pre_devices[i].id,
                                    item.state,
                                    now,
                                )
                        } else {
                            pre_devices.len() as int
                        };
                        let target_id: u128 = self@.devices[di_new].id;
                        assert(self@.devices[di_new].user_id == user
                            && self@.devices[di_new].google_device_id@ == key_k && spec_projected(
                            pre_view.states,
                            self@.states,
                            target_id,
                            item.state,
                            now,
                        )) by {
                            if !matched {
                                assert(self@.devices == pre_devices.push(dev));
                                assert(self@.devices[di_new] == dev);
                            }
                        }
                        assert(exists|si: int|
                            0 <= si < self@.states.len() && (#[trigger] self@.states[si]).device_id
                                == target_id && self@.states[si].state_json == item.state
                                && self@.states[si].updated_at == now) by {
                            if exists|j: int|
                                0 <= j < pre_view.states.len() && (
                                #[trigger] pre_view.states[j]).device_id == target_id {
                                let j = choose|j: int|
                                    0 <= j < pre_view.states.len() && (
                                    #[trigger] pre_view.states[j]).device_id == target_id
                                        && self@.states == pre_view.states.update(
                                        j,
                                        DeviceState {
                                            state_json: item.state,
                                            updated_at: now,
                                            ..pre_view.states[j]
                                        },
                                    );
                                assert(self@.states[j].device_id == target_id);
                            } else {
                                let sid = choose|sid: u128|
                                    self@.states == pre_view.states.push(
                                        DeviceState {
                                            id: sid,
                                            device_id: target_id,
                                            state_json: item.state,
                                            updated_at: now,
                                        },
                                    );
                                assert(self@.states[pre_view.states.len() as int].device_id
                                    == target_id);
                            }
                        }
                        assert(item == req.devices@[k as int]);
                        assert(spec_state_written(self@, user, req.devices@[k as int], now));
                        // earlier last-of-key items keep their rows untouched
                        assert forall|k2: int|
                            0 <= k2 < k + 1 && is_last_key_below(req.devices@, k2, k + 1) implies
                            #[trigger] spec_state_written(self@, user, req.devices@[k2], now) by {
                            if k2 < k as int {
                                assert(is_last_key_below(req.devices@, k2, k as int));
                                assert(req.devices@[k as int].google_device_id@
                                    != req.devices@[k2].google_device_id@);
                                assert(spec_state_written(pre_view, user, req.devices@[k2], now));
                                let di = choose|di: int|
                                    0 <= di < pre_view.devices.len() && (
                                    #[trigger] pre_view.devices[di]).user_id == user
                                        && pre_view.devices[di].google_device_id@
                                        == req.devices@[k2].google_device_id@ && exists|si: int|
                                        0 <= si < pre_view.states.len() && (
                                        #[trigger] pre_view.states[si]).device_id
                                            == pre_view.devices[di].id
                                            && pre_view.states[si].state_json
                                            == req.devices@[k2].state
                                            && pre_view.states[si].updated_at == now;
                                let si = choose|si: int|
                                    0 <= si < pre_view.states.len() && (
                                    #[trigger] pre_view.states[si]).device_id
                                        == pre_view.devices[di].id && pre_view.states[si].state_json
                                        == req.devices@[k2].state && pre_view.states[si].updated_at
                                        == now;
                                // the device row at di is not the one this step rewrote
                                assert(self@.devices[di] == pre_view.devices[di]) by {
                                    if matched {
                                        assert(pre_devices[di_new].google_device_id@ == key_k);
                                        assert(di != di_new);
                                    }
                                }
                                // and the projected state row has a different device id
                                assert(target_id != pre_view.devices[di].id) by {
                                    if matched {
                                        assert(target_id == pre_devices[di_new].id);
                                        assert(di != di_new);
                                    } else {
                                        assert(!spec_device_id_taken(pre_devices, dev.id));
                                        assert(target_id == dev.id);
                                    }
                                }
                                assert(self@.states[si] == pre_view.states[si]) by {
                                    if exists|j: int|
                                        0 <= j < pre_view.states.len() && (
                                        #[trigger] pre_view.states[j]).device_id == target_id {
                                        let j = choose|j: int|
                                            0 <= j < pre_view.states.len() && (
                                            #[trigger] pre_view.states[j]).device_id == target_id
                                                && self@.states == pre_view.states.update(
                                                j,
                                                DeviceState {
                                                    state_json: item.state,
                                                    updated_at: now,
                                                    ..pre_view.states[j]
                                                },
                                            );
                                        assert(si != j);
                                    }
                                }
                                assert(spec_state_written(self@, user, req.devices@[k2], now));
                            }
                        }
                    }
                },
                Err(e) => {
                    proof {
                        assert(!spec_has_device(pre_devices, user, key_k));
                        assert(!device_key_set(pre_devices, user).contains(key_k));
                        assert(!d0.contains(key_k)) by {
                            if d0.contains(key_k) {
                                assert(d0.union(prefix.to_set()).contains(key_k));
                                assert(device_key_set(pre_devices, user).contains(key_k));
                            }
                        }
                        assert(!spec_has_device(old(self)@.devices, user, key_k));
                        assert(req.devices@[k as int].google_device_id@ == key_k);
                    }
                    return Err(e);
                },
            }
            k = k + 1;
        }
        proof {
            assert(dkeys.subrange(0, dkeys.len() as int) =~= dkeys);
            assert forall|j: int| 0 <= j < req.structures@.len() implies spec_has_structure(
                self@.structures,
                user,
                (#[trigger] req.structures@[j]).google_structure_id@,
            ) by {
                let e = req.structures@[j].google_structure_id@;
                assert(structure_keys_of(req.structures@)[j] == e);
                assert(structure_keys_of(req.structures@).contains(e));
                assert(structure_keys_of(req.structures@).to_set().contains(e));
                assert(structure_key_set(self@.structures, user).contains(e));
            }
            assert forall|j: int| 0 <= j < req.devices@.len() implies spec_has_device(
                self@.devices,
                user,
                (#[trigger] req.devices@[j]).google_device_id@,
            ) by {
                let e = req.devices@[j].google_device_id@;
                assert(device_keys_of(req.devices@)[j] == e);
                assert(device_keys_of(req.devices@).contains(e));
                assert(device_keys_of(req.devices@).to_set().contains(e));
                assert(device_key_set(self@.devices, user).contains(e));
            }
        }
        Ok(req.devices.len())
    }

    /// Reconciles a full mobile snapshot at the current wall-clock time.
    pub fn sync_devices(&mut self, user: u128, req: DeviceSyncRequest) -> (r: Result<
        usize,
        CoreError,
    >)
        requires
            old(self).wf(),
        ensures
            final(self).wf(),
            unchanged_except_sync_tables(old(self)@, final(self)@),
            match r {
                Ok(n) => {
                    &&& n == req.devices@.len()
                    &&& final(self)@.structures.len() == old(self)@.structures.len() + added_count(
                        structure_key_set(old(self)@.structures, user),
                        structure_keys_of(req.structures@),
                    )
                    &&& final(self)@.devices.len() == old(self)@.devices.len() + added_count(
                        device_key_set(old(self)@.devices, user),
                        device_keys_of(req.devices@),
                    )
                    &&& forall|k: int|
                        0 <= k < req.structures@.len() ==> spec_has_structure(
                            final(self)@.structures,
                            user,
                            (#[trigger] req.structures@[k]).google_structure_id@,
                        )
                    &&& forall|k: int|
                        0 <= k < req.devices@.len() ==> spec_has_device(
                            final(self)@.devices,
                            user,
                            (#[trigger] req.devices@[k]).google_device_id@,
                        )
                    &&& exists|t: i64| #[trigger] spec_batch_states_written(
                        final(self)@,
                        user,
                        req.devices@,
                        t,
                    )
                },
                Err(e) => e == CoreError::StorageConflict && exists|k: int|
                    0 <= k < req.devices@.len() && !spec_has_device(
                        old(self)@.devices,
                        user,
                        (#[trigger] req.devices@[k]).google_device_id@,
                    ),
            },
    {
        let now = now_epoch_seconds();
        self.sync_batch(user, req, now)
    }

    /// Refreshes the caller's mobile session: updates the matched (user,
    /// device token) row, or creates one under a fresh id.
    pub fn update_mobile_session(&mut self, user: u128, req: HeartbeatRequest, now: i64)
        requires
            old(self).wf(),
        ensures
            final(self).wf(),
            unchanged_except_sessions(old(self)@, final(self)@),
            if spec_has_session(old(self)@.sessions, user, req.device_token@) {
                exists|i: int|
                    0 <= i < old(self)@.sessions.len() && (#[trigger] old(
                        self,
                    )@.sessions[i]).user_id == user && old(self)@.sessions[i].device_token@
                        == req.device_token@ && final(self)@.sessions == old(
                        self,
                    )@.sessions.update(
                        i,
                        MobileSession {
                            platform: req.platform,
                            app_version: req.app_version,
                            last_heartbeat: now,
                            updated_at: now,
                            ..old(self)@.sessions[i]
                        },
                    )
            } else {
                exists|sid: u128|
                    final(self)@.sessions == old(self)@.sessions.push(
                        MobileSession {
                            id: sid,
                            user_id: user,
                            device_token: req.device_token,
                            platform: req.platform,
                            app_version: req.app_version,
                            last_heartbeat: now,
                            created_at: now,
                            updated_at: now,
                        },
                    )
            },
    {
        let found = self.find_session_index(user, &req.device_token);
        match found {
            Some(i) => {
                let ghost pre = self@.sessions;
                let mut row = self.sessions.remove(i);
                row.platform = req.platform;
                row.app_version = req.app_version;
                row.last_heartbeat = now;
                row.updated_at = now;
                self.sessions.insert(i, row);
                proof {
                    assert(self@.sessions =~= pre.update(
                        i as int,
                        MobileSession {
                            platform: req.platform,
                            app_version: req.app_version,
                            last_heartbeat: now,
                            updated_at: now,
                            ..pre[i as int]
                        },
                    ));
                    assert(sessions_wf(self@.sessions));
                }
            },
            None => {
                let sid = fresh_id();
                self.sessions.push(
                    MobileSession {
                        id: sid,
                        user_id: user,
                        device_token: req.device_token,
                        platform: req.platform,
                        app_version: req.app_version,
                        last_heartbeat: now,
                        created_at: now,
                        updated_at: now,
                    },
                );
                proof {
                    assert(sessions_wf(self@.sessions));
                }
            },
        }
    }

    /// The mobile heartbeat: refreshes the caller's session at the current
    /// wall-clock time and returns the pending delivery batch, oldest
    /// first, capped, with the server time the batch was drawn at.
    pub fn heartbeat(&mut self, user: u128, req: HeartbeatRequest) -> (resp: HeartbeatResponse)
        requires
            old(self).wf(),
        ensures
            final(self).wf(),
            unchanged_except_sessions(old(self)@, final(self)@),
            resp.pending_commands@ == pending_model(
                old(self)@.commands,
                user,
                resp.server_time,
                POLL_BATCH_SIZE as nat,
            ),
            if spec_has_session(old(self)@.sessions, user, req.device_token@) {
                exists|i: int|
                    0 <= i < old(self)@.sessions.len() && (#[trigger] old(
                        self,
                    )@.sessions[i]).user_id == user && old(self)@.sessions[i].device_token@
                        == req.device_token@ && final(self)@.sessions == old(
                        self,
                    )@.sessions.update(
                        i,
                        MobileSession {
                            platform: req.platform,
                            app_version: req.app_version,
                            last_heartbeat: resp.server_time,
                            updated_at: resp.server_time,
                            ..old(self)@.sessions[i]
                        },
                    )
            } else {
                exists|sid: u128|
                    final(self)@.sessions == old(self)@.sessions.push(
                        MobileSession {
                            id: sid,
                            user_id: user,
                            device_token: req.device_token,
                            platform: req.platform,
                            app_version: req.app_version,
                            last_heartbeat: resp.server_time,
                            created_at: resp.server_time,
                            updated_at: resp.server_time,
                        },
                    )
            },
    {
        let now = now_epoch_seconds();
        self.update_mobile_session(user, req, now);
        let pending = self.get_pending_commands(user, now);
        HeartbeatResponse { pending_commands: pending, server_time: now }
    }

    /// Records a command result reported by the mobile client, at the
    /// current wall-clock time.
    pub fn command_result(&mut self, res: CommandResult) -> (r: Result<(), CoreError>)
        requires
            old(self).wf(),
        ensures
            final(self).wf(),
            unchanged_except_commands_and_states(old(self)@, final(self)@),
            match r {
                Ok(()) => exists|now: i64|
                    spec_report_outcome(old(self)@, final(self)@, res, now),
                Err(e) => e == CoreError::NotFound && final(self)@ == old(self)@
                    && !crate::lifecycle::spec_has_command(old(self)@.commands, res.command_id),
            },
    {
        let now = now_epoch_seconds();
        self.report_result(res, now)
    }
}

} // verus!
