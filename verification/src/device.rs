//! Devices, their grouping structures, and per-device state records.
//!
//! Identifiers are 128-bit values; provider-assigned external identifiers
//! (from the device directory) are strings; capability and state documents
//! are opaque and carried through unread; timestamps are epoch seconds.

use vstd::prelude::*;

verus! {

/// A user-level grouping of devices (e.g. a home), provided by the external
/// device directory.
#[derive(Debug)]
pub struct Structure {
    pub id: u128,
    pub user_id: u128,
    pub google_structure_id: String,
    pub name: String,
    pub created_at: i64,
    pub updated_at: i64,
}

/// The fields supplied when creating a structure row.
#[derive(Clone, Debug)]
pub struct NewStructure {
    pub id: u128,
    pub user_id: u128,
    pub google_structure_id: String,
    pub name: String,
}

/// A smart device tied to a user's account.
#[derive(Debug)]
pub struct Device {
    pub id: u128,
    pub user_id: u128,
    pub structure_id: Option<u128>,
    pub google_device_id: String,
    pub name: String,
    pub device_type: String,
    pub room: Option<String>,
    pub capabilities_json: String,
    pub last_seen_at: i64,
    pub created_at: i64,
    pub updated_at: i64,
}

/// The fields supplied when creating a device row.
#[derive(Clone, Debug)]
pub struct NewDevice {
    pub id: u128,
    pub user_id: u128,
    pub structure_id: Option<u128>,
    pub google_device_id: String,
    pub name: String,
    pub device_type: String,
    pub room: Option<String>,
    pub capabilities_json: String,
    pub last_seen_at: i64,
}

/// The single current-state record of a device: an opaque document
/// reflecting the last known power/sensor state, last-writer-wins.
#[derive(Debug)]
pub struct DeviceState {
    pub id: u128,
    pub device_id: u128,
    pub state_json: String,
    pub updated_at: i64,
}

/// The fields supplied when seeding a device's state record.
#[derive(Clone, Debug)]
pub struct NewDeviceState {
    pub id: u128,
    pub device_id: u128,
    pub state_json: String,
    pub updated_at: i64,
}

/// One mobile-reported device in a sync batch.
#[derive(Debug)]
pub struct DeviceSync {
    pub google_device_id: String,
    pub name: String,
    pub device_type: String,
    pub room: Option<String>,
    pub structure_id: Option<String>,
    pub capabilities: String,
    pub state: String,
}

/// One mobile-reported structure in a sync batch.
#[derive(Debug)]
pub struct StructureSync {
    pub google_structure_id: String,
    pub name: String,
}

/// A full mobile snapshot: structures first, then devices.
#[derive(Clone, Debug)]
pub struct DeviceSyncRequest {
    pub devices: Vec<DeviceSync>,
    pub structures: Vec<StructureSync>,
}

/// Clones an optional string, preserving the value exactly.
pub fn clone_opt_string(o: &Option<String>) -> (r: Option<String>)
    ensures
        r == *o,
{
    match o {
        Option::None => Option::None,
        Option::Some(s) => Option::Some(s.clone()),
    }
}

impl Clone for StructureSync {
    fn clone(&self) -> (res: Self)
        ensures
            res == *self,
    {
        StructureSync {
            google_structure_id: self.google_structure_id.clone(),
            name: self.name.clone(),
        }
    }
}

impl Clone for DeviceSync {
    fn clone(&self) -> (res: Self)
        ensures
            res == *self,
    {
        DeviceSync {
            google_device_id: self.google_device_id.clone(),
            name: self.name.clone(),
            device_type: self.device_type.clone(),
            room: clone_opt_string(&self.room),
            structure_id: clone_opt_string(&self.structure_id),
            capabilities: self.capabilities.clone(),
            state: self.state.clone(),
        }
    }
}

impl Clone for Structure {
    fn clone(&self) -> (res: Self)
        ensures
            res == *self,
    {
        Structure {
            id: self.id,
            user_id: self.user_id,
            google_structure_id: self.google_structure_id.clone(),
            name: self.name.clone(),
            created_at: self.created_at,
            updated_at: self.updated_at,
        }
    }
}

impl Clone for Device {
    fn clone(&self) -> (res: Self)
        ensures
            res == *self,
    {
        Device {
            id: self.id,
            user_id: self.user_id,
            structure_id: self.structure_id,
            google_device_id: self.google_device_id.clone(),
            name: self.name.clone(),
            device_type: self.device_type.clone(),
            room: clone_opt_string(&self.room),
            capabilities_json: self.capabilities_json.clone(),
            last_seen_at: self.last_seen_at,
            created_at: self.created_at,
            updated_at: self.updated_at,
        }
    }
}

impl Clone for DeviceState {
    fn clone(&self) -> (res: Self)
        ensures
            res == *self,
    {
        DeviceState {
            id: self.id,
            device_id: self.device_id,
            state_json: self.state_json.clone(),
            updated_at: self.updated_at,
        }
    }
}

} // verus!
