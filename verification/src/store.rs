//! The in-memory record store the components operate on.
//!
//! The core consumes a storage interface, not a specific database: this
//! module is that interface, with upsert semantics for the sync coordinator
//! and filtered queries keyed by id and by (user, external id) pairs. Every
//! operation preserves the store's well-formedness: by-id lookups hit unique
//! rows and external-key matches are unambiguous.

use vstd::prelude::*;

use crate::command::Command;
use crate::device::Device;
use crate::device::DeviceState;
use crate::device::Structure;
use crate::rule::Rule;
use crate::schedule::DayPrice;
use crate::schedule::Schedule;
use crate::session::MobileSession;
use crate::CoreError;

verus! {

/// All persisted records, one vector per entity, in insertion order.
/// Command creation timestamps are nondecreasing in table order (the
/// enqueue path clamps a backwards clock), so "oldest first" reads are
/// front-to-back scans.
#[derive(Debug)]
pub struct Store {
    pub structures: Vec<Structure>,
    pub devices: Vec<Device>,
    pub states: Vec<DeviceState>,
    pub rules: Vec<Rule>,
    pub schedules: Vec<Schedule>,
    pub commands: Vec<Command>,
    pub sessions: Vec<MobileSession>,
    pub day_prices: Vec<DayPrice>,
}

/// Mathematical image of the store: each table as a sequence.
#[verifier::ext_equal]
pub struct StoreView {
    pub structures: Seq<Structure>,
    pub devices: Seq<Device>,
    pub states: Seq<DeviceState>,
    pub rules: Seq<Rule>,
    pub schedules: Seq<Schedule>,
    pub commands: Seq<Command>,
    pub sessions: Seq<MobileSession>,
    pub day_prices: Seq<DayPrice>,
}

impl View for Store {
    type V = StoreView;

    open spec fn view(&self) -> StoreView {
        StoreView {
            structures: self.structures@,
            devices: self.devices@,
            states: self.states@,
            rules: self.rules@,
            schedules: self.schedules@,
            commands: self.commands@,
            sessions: self.sessions@,
            day_prices: self.day_prices@,
        }
    }
}

/// No two structures share a (user, external id) key.
pub open spec fn structures_wf(ss: Seq<Structure>) -> bool {
    forall|i: int, j: int|
        0 <= i < j < ss.len() ==> !((#[trigger] ss[i]).user_id == (#[trigger] ss[j]).user_id
            && ss[i].google_structure_id@ == ss[j].google_structure_id@)
}

/// Device ids are unique, and no two devices share a (user, external id) key.
pub open spec fn devices_wf(ds: Seq<Device>) -> bool {
    &&& forall|i: int, j: int|
        0 <= i < j < ds.len() ==> (#[trigger] ds[i]).id != (#[trigger] ds[j]).id
    &&& forall|i: int, j: int|
        0 <= i < j < ds.len() ==> !((#[trigger] ds[i]).user_id == (#[trigger] ds[j]).user_id
            && ds[i].google_device_id@ == ds[j].google_device_id@)
}

/// At most one current-state record per device.
pub open spec fn states_wf(ss: Seq<DeviceState>) -> bool {
    forall|i: int, j: int|
        0 <= i < j < ss.len() ==> (#[trigger] ss[i]).device_id != (#[trigger] ss[j]).device_id
}

/// Rule ids are unique.
pub open spec fn rules_wf(rs: Seq<Rule>) -> bool {
    forall|i: int, j: int| 0 <= i < j < rs.len() ==> (#[trigger] rs[i]).id != (#[trigger] rs[j]).id
}

/// Schedule ids are unique, and at most one schedule per (device, rule, date).
pub open spec fn schedules_wf(ss: Seq<Schedule>) -> bool {
    &&& forall|i: int, j: int|
        0 <= i < j < ss.len() ==> (#[trigger] ss[i]).id != (#[trigger] ss[j]).id
    &&& forall|i: int, j: int|
        0 <= i < j < ss.len() ==> !((#[trigger] ss[i]).device_id == (#[trigger] ss[j]).device_id
            && ss[i].rule_id == ss[j].rule_id && ss[i].date == ss[j].date)
}

/// Command ids are unique.
pub open spec fn commands_wf(cs: Seq<Command>) -> bool {
    forall|i: int, j: int| 0 <= i < j < cs.len() ==> (#[trigger] cs[i]).id != (#[trigger] cs[j]).id
}

/// Command creation timestamps never decrease along the table, so table
/// order is creation order and front-to-back reads deliver oldest first.
pub open spec fn commands_ordered(cs: Seq<Command>) -> bool {
    forall|i: int, j: int|
        0 <= i <= j < cs.len() ==> (#[trigger] cs[i]).created_at <= (#[trigger] cs[j]).created_at
}

/// At most one mobile session per (user, device token).
pub open spec fn sessions_wf(ss: Seq<MobileSession>) -> bool {
    forall|i: int, j: int|
        0 <= i < j < ss.len() ==> !((#[trigger] ss[i]).user_id == (#[trigger] ss[j]).user_id
            && ss[i].device_token@ == ss[j].device_token@)
}

/// At most one price table per (date, timezone).
pub open spec fn day_prices_wf(ps: Seq<DayPrice>) -> bool {
    forall|i: int, j: int|
        0 <= i < j < ps.len() ==> !((#[trigger] ps[i]).date == (#[trigger] ps[j]).date
            && ps[i].timezone@ == ps[j].timezone@)
}

/// Whether `user` owns the device with id `device_id` in view `s`.
pub open spec fn view_owns_device(s: StoreView, user: u128, device_id: u128) -> bool {
    exists|i: int|
        0 <= i < s.devices.len() && (#[trigger] s.devices[i]).id == device_id
            && s.devices[i].user_id == user
}

impl Store {
    /// Well-formedness of the whole store; established by `new` and
    /// preserved by every operation.
    pub open spec fn wf(&self) -> bool {
        &&& structures_wf(self@.structures)
        &&& devices_wf(self@.devices)
        &&& states_wf(self@.states)
        &&& rules_wf(self@.rules)
        &&& schedules_wf(self@.schedules)
        &&& commands_wf(self@.commands)
        &&& commands_ordered(self@.commands)
        &&& sessions_wf(self@.sessions)
        &&& day_prices_wf(self@.day_prices)
    }

    /// An empty store.
    pub fn new() -> (r: Store)
        ensures
            r.wf(),
            r@.structures.len() == 0,
            r@.devices.len() == 0,
            r@.states.len() == 0,
            r@.rules.len() == 0,
            r@.schedules.len() == 0,
            r@.commands.len() == 0,
            r@.sessions.len() == 0,
            r@.day_prices.len() == 0,
    {
        Store {
            structures: Vec::new(),
            devices: Vec::new(),
            states: Vec::new(),
            rules: Vec::new(),
            schedules: Vec::new(),
            commands: Vec::new(),
            sessions: Vec::new(),
            day_prices: Vec::new(),
        }
    }

    /// Whether `user` owns the device with id `device_id`.
    pub open spec fn spec_owns_device(&self, user: u128, device_id: u128) -> bool {
        view_owns_device(self@, user, device_id)
    }

    /// The authorization gate applied before every per-device operation:
    /// the device exists and belongs to the requesting user.
    pub fn verify_device_ownership(&self, user: u128, device_id: u128) -> (r: bool)
        ensures
            r == self.spec_owns_device(user, device_id),
    {
        let mut i: usize = 0;
        while i < self.devices.len()
            invariant
                i <= self.devices.len(),
                forall|j: int|
                    0 <= j < i ==> !((#[trigger] self@.devices[j]).id == device_id
                        && self@.devices[j].user_id == user),
            decreases self.devices.len() - i,
        {
            if self.devices[i].id == device_id && self.devices[i].user_id == user {
                return true;
            }
            i = i + 1;
        }
        false
    }

    /// All devices of `user`, in insertion order.
    pub fn list_devices(&self, user: u128) -> (r: Vec<Device>)
        ensures
            r@ == self@.devices.filter(|d: Device| d.user_id == user),
    {
        let mut out: Vec<Device> = Vec::new();
        let mut i: usize = 0;
        while i < self.devices.len()
            invariant
                i <= self.devices.len(),
                out@ == self@.devices.subrange(0, i as int).filter(|d: Device| d.user_id == user),
            decreases self.devices.len() - i,
        {
            let ghost prefix = self@.devices.subrange(0, i as int);
            let ghost next_prefix = self@.devices.subrange(0, i + 1 as int);
            proof {
                assert(next_prefix.drop_last() =~= prefix);
                assert(next_prefix.last() == self@.devices[i as int]);
                reveal_with_fuel(Seq::filter, 2);
            }
            if self.devices[i].user_id == user {
                out.push(self.devices[i].clone());
            }
            i = i + 1;
        }
        proof {
            assert(self@.devices.subrange(0, self@.devices.len() as int) =~= self@.devices);
        }
        out
    }

    /// The device with id `device_id`, if `user` owns it; `NotFound`
    /// otherwise (never leaking other users' devices).
    pub fn get_device(&self, user: u128, device_id: u128) -> (r: Result<Device, CoreError>)
        requires
            self.wf(),
        ensures
            match r {
                Ok(d) => self.spec_owns_device(user, device_id) && d.id == device_id && d.user_id
                    == user && self@.devices.contains(d),
                Err(e) => e == CoreError::NotFound && !self.spec_owns_device(user, device_id),
            },
    {
        let mut i: usize = 0;
        while i < self.devices.len()
            invariant
                i <= self.devices.len(),
                forall|j: int|
                    0 <= j < i ==> !((#[trigger] self@.devices[j]).id == device_id
                        && self@.devices[j].user_id == user),
            decreases self.devices.len() - i,
        {
            if self.devices[i].id == device_id && self.devices[i].user_id == user {
                let d = self.devices[i].clone();
                assert(self@.devices.contains(d));
                return Ok(d);
            }
            i = i + 1;
        }
        Err(CoreError::NotFound)
    }

    /// Whether a current-state record exists for `device_id`.
    pub open spec fn spec_has_state(&self, device_id: u128) -> bool {
        exists|i: int|
            0 <= i < self@.states.len() && (#[trigger] self@.states[i]).device_id == device_id
    }

    /// The current state of an owned device. `NotFound` when the device is
    /// not the user's or no state record exists yet.
    pub fn get_device_state(&self, user: u128, device_id: u128) -> (r: Result<
        DeviceState,
        CoreError,
    >)
        requires
            self.wf(),
        ensures
            match r {
                Ok(st) => self.spec_owns_device(user, device_id) && st.device_id == device_id
                    && self@.states.contains(st),
                Err(e) => e == CoreError::NotFound && !(self.spec_owns_device(user, device_id)
                    && self.spec_has_state(device_id)),
            },
    {
        if !self.verify_device_ownership(user, device_id) {
            return Err(CoreError::NotFound);
        }
        let mut i: usize = 0;
        while i < self.states.len()
            invariant
                i <= self.states.len(),
                self.spec_owns_device(user, device_id),
                forall|j: int| 0 <= j < i ==> (#[trigger] self@.states[j]).device_id != device_id,
            decreases self.states.len() - i,
        {
            if self.states[i].device_id == device_id {
                let st = self.states[i].clone();
                assert(st == self@.states[i as int]);
                assert(self@.states.contains(st));
                return Ok(st);
            }
            i = i + 1;
        }
        Err(CoreError::NotFound)
    }

    /// Whether a price table exists for (date, timezone).
    pub open spec fn spec_has_day_price(&self, date: i32, timezone: Seq<char>) -> bool {
        exists|i: int|
            0 <= i < self@.day_prices.len() && (#[trigger] self@.day_prices[i]).date == date
                && self@.day_prices[i].timezone@ == timezone
    }

    /// The index of the price table for (date, timezone), if one is stored.
    fn find_day_price_index(&self, date: i32, timezone: &String) -> (r: Option<usize>)
        ensures
            match r {
                Some(i) => i < self@.day_prices.len() && self@.day_prices[i as int].date == date
                    && self@.day_prices[i as int].timezone@ == timezone@,
                None => !self.spec_has_day_price(date, timezone@),
            },
    {
        let mut i: usize = 0;
        while i < self.day_prices.len()
            invariant
                i <= self.day_prices.len(),
                forall|j: int|
                    0 <= j < i ==> !((#[trigger] self@.day_prices[j]).date == date
                        && self@.day_prices[j].timezone@ == timezone@),
            decreases self.day_prices.len() - i,
        {
            if self.day_prices[i].date == date && self.day_prices[i].timezone == *timezone {
                return Some(i);
            }
            i = i + 1;
        }
        None
    }

    /// Stores a day's price table, overwriting the table already present
    /// for the same (date, timezone) if there is one.
    pub fn put_day_price(&mut self, row: DayPrice)
        requires
            old(self).wf(),
        ensures
            final(self).wf(),
            unchanged_except_day_prices(old(self)@, final(self)@),
            old(self).spec_has_day_price(row.date, row.timezone@) ==> exists|i: int|
                0 <= i < old(self)@.day_prices.len() && (#[trigger] old(
                    self,
                )@.day_prices[i]).date == row.date && old(self)@.day_prices[i].timezone@
                    == row.timezone@ && final(self)@.day_prices == old(self)@.day_prices.update(
                    i,
                    row,
                ),
            !old(self).spec_has_day_price(row.date, row.timezone@) ==> final(self)@.day_prices
                == old(self)@.day_prices.push(row),
    {
        match self.find_day_price_index(row.date, &row.timezone) {
            Some(i) => {
                let ghost pre = self@.day_prices;
                let _old_row = self.day_prices.remove(i);
                self.day_prices.insert(i, row);
                proof {
                    assert(self@.day_prices =~= pre.update(i as int, row));
                    assert(day_prices_wf(self@.day_prices));
                }
            },
            None => {
                self.day_prices.push(row);
            },
        }
    }

    /// The price table for (date, timezone), if one is stored.
    pub fn get_day_price(&self, date: i32, timezone: &String) -> (r: Option<&DayPrice>)
        ensures
            match r {
                Some(p) => p.date == date && p.timezone@ == timezone@ && self@.day_prices.contains(
                    *p,
                ),
                None => !self.spec_has_day_price(date, timezone@),
            },
    {
        match self.find_day_price_index(date, timezone) {
            Some(i) => {
                let p = &self.day_prices[i];
                assert(self@.day_prices.contains(*p));
                Some(p)
            },
            None => None,
        }
    }
}

/// Every table except `day_prices` is unchanged.
pub open spec fn unchanged_except_day_prices(pre: StoreView, post: StoreView) -> bool {
    &&& post.structures == pre.structures
    &&& post.devices == pre.devices
    &&& post.states == pre.states
    &&& post.rules == pre.rules
    &&& post.schedules == pre.schedules
    &&& post.commands == pre.commands
    &&& post.sessions == pre.sessions
}

/// Every table except `states` is unchanged.
pub open spec fn unchanged_except_states(pre: StoreView, post: StoreView) -> bool {
    &&& post.structures == pre.structures
    &&& post.devices == pre.devices
    &&& post.rules == pre.rules
    &&& post.schedules == pre.schedules
    &&& post.commands == pre.commands
    &&& post.sessions == pre.sessions
    &&& post.day_prices == pre.day_prices
}

/// Every table except `commands` is unchanged.
pub open spec fn unchanged_except_commands(pre: StoreView, post: StoreView) -> bool {
    &&& post.structures == pre.structures
    &&& post.devices == pre.devices
    &&& post.states == pre.states
    &&& post.rules == pre.rules
    &&& post.schedules == pre.schedules
    &&& post.sessions == pre.sessions
    &&& post.day_prices == pre.day_prices
}

/// Every table except `commands` and `states` is unchanged.
pub open spec fn unchanged_except_commands_and_states(pre: StoreView, post: StoreView) -> bool {
    &&& post.structures == pre.structures
    &&& post.devices == pre.devices
    &&& post.rules == pre.rules
    &&& post.schedules == pre.schedules
    &&& post.sessions == pre.sessions
    &&& post.day_prices == pre.day_prices
}

/// Every table except `rules` is unchanged.
pub open spec fn unchanged_except_rules(pre: StoreView, post: StoreView) -> bool {
    &&& post.structures == pre.structures
    &&& post.devices == pre.devices
    &&& post.states == pre.states
    &&& post.schedules == pre.schedules
    &&& post.commands == pre.commands
    &&& post.sessions == pre.sessions
    &&& post.day_prices == pre.day_prices
}

/// Every table except `schedules` is unchanged.
pub open spec fn unchanged_except_schedules(pre: StoreView, post: StoreView) -> bool {
    &&& post.structures == pre.structures
    &&& post.devices == pre.devices
    &&& post.states == pre.states
    &&& post.rules == pre.rules
    &&& post.commands == pre.commands
    &&& post.sessions == pre.sessions
    &&& post.day_prices == pre.day_prices
}

/// Every table except `sessions` is unchanged.
pub open spec fn unchanged_except_sessions(pre: StoreView, post: StoreView) -> bool {
    &&& post.structures == pre.structures
    &&& post.devices == pre.devices
    &&& post.states == pre.states
    &&& post.rules == pre.rules
    &&& post.schedules == pre.schedules
    &&& post.commands == pre.commands
    &&& post.day_prices == pre.day_prices
}

/// Every table except the three the sync coordinator writes (`structures`,
/// `devices`, `states`) is unchanged.
pub open spec fn unchanged_except_sync_tables(pre: StoreView, post: StoreView) -> bool {
    &&& post.rules == pre.rules
    &&& post.schedules == pre.schedules
    &&& post.commands == pre.commands
    &&& post.sessions == pre.sessions
    &&& post.day_prices == pre.day_prices
}

} // verus!
