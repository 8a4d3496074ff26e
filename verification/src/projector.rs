//! The device state projector: merges acknowledged command outcomes and
//! mobile-reported snapshots into the single authoritative per-device state
//! record.
//!
//! Both entry points perform the same upsert: create the record if none
//! exists, otherwise overwrite document and timestamp unconditionally. The
//! freshest report wins regardless of source (last-write-wins, no conflict
//! detection); out-of-order delivery can transiently mask a more recent
//! truth, and that is the documented behavior.

use vstd::prelude::*;

use crate::device::DeviceState;
use crate::platform::fresh_id;
use crate::store::states_wf;
use crate::store::unchanged_except_states;
use crate::store::Store;
use crate::store::StoreView;

verus! {

/// The state-table change both projector entry points perform: if a record
/// for `device_id` exists it is overwritten in place with `doc` and `ts`;
/// otherwise a record is created under some fresh id.
pub open spec fn spec_projected(
    pre: Seq<DeviceState>,
    post: Seq<DeviceState>,
    device_id: u128,
    doc: String,
    ts: i64,
) -> bool {
    if exists|i: int| 0 <= i < pre.len() && (#[trigger] pre[i]).device_id == device_id {
        exists|i: int|
            0 <= i < pre.len() && (#[trigger] pre[i]).device_id == device_id && post == pre.update(
                i,
                DeviceState { state_json: doc, updated_at: ts, ..pre[i] },
            )
    } else {
        exists|sid: u128|
            post == pre.push(
                DeviceState { id: sid, device_id, state_json: doc, updated_at: ts },
            )
    }
}

impl Store {
    /// The index of the state record for `device_id`, if one exists.
    fn find_state_index(&self, device_id: u128) -> (r: Option<usize>)
        ensures
            match r {
                Some(i) => i < self@.states.len() && self@.states[i as int].device_id == device_id,
                None => forall|j: int|
                    0 <= j < self@.states.len() ==> (#[trigger] self@.states[j]).device_id
                        != device_id,
            },
    {
        let mut i: usize = 0;
        while i < self.states.len()
            invariant
                i <= self.states.len(),
                forall|j: int| 0 <= j < i ==> (#[trigger] self@.states[j]).device_id != device_id,
            decreases self.states.len() - i,
        {
            if self.states[i].device_id == device_id {
                return Some(i);
            }
            i = i + 1;
        }
        None
    }

    /// The shared upsert behind both projector entry points.
    fn project_state(&mut self, device_id: u128, doc: String, ts: i64)
        requires
            old(self).wf(),
        ensures
            final(self).wf(),
            unchanged_except_states(old(self)@, final(self)@),
            spec_projected(old(self)@.states, final(self)@.states, device_id, doc, ts),
    {
        match self.find_state_index(device_id) {
            Some(i) => {
                let ghost pre = self@.states;
                let mut row = self.states.remove(i);
                row.state_json = doc;
                row.updated_at = ts;
                self.states.insert(i, row);
                proof {
                    assert(self@.states =~= pre.update(
                        i as int,
                        DeviceState { state_json: doc, updated_at: ts, ..pre[i as int] },
                    ));
                    assert(states_wf(self@.states));
                }
            },
            None => {
                let sid = fresh_id();
                self.states.push(
                    DeviceState { id: sid, device_id, state_json: doc, updated_at: ts },
                );
            },
        }
    }

    /// Projects a mobile-reported state snapshot onto the device's record.
    pub fn apply_mobile_snapshot(&mut self, device_id: u128, state_document: String, timestamp: i64)
        requires
            old(self).wf(),
        ensures
            final(self).wf(),
            unchanged_except_states(old(self)@, final(self)@),
            spec_projected(
                old(self)@.states,
                final(self)@.states,
                device_id,
                state_document,
                timestamp,
            ),
    {
        self.project_state(device_id, state_document, timestamp);
    }

    /// Projects the state reported with an executed command's outcome onto
    /// the device's record.
    pub fn apply_command_outcome(&mut self, device_id: u128, state_document: String, timestamp: i64)
        requires
            old(self).wf(),
        ensures
            final(self).wf(),
            unchanged_except_states(old(self)@, final(self)@),
            spec_projected(
                old(self)@.states,
                final(self)@.states,
                device_id,
                state_document,
                timestamp,
            ),
    {
        self.project_state(device_id, state_document, timestamp);
    }
}

} // verus!
