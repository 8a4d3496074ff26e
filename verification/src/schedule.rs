//! Derived schedules: per (device, rule, date), an ordered sequence of ON
//! time slots and their total cost, plus the day's hourly price table.
//!
//! Slots are minute-precision intervals within one calendar day. A computed
//! schedule's slots are sorted, pairwise disjoint, and separated by at least
//! one OFF minute (each slot is a maximal ON run). Dates are day numbers;
//! prices are fixed-point integer amounts per hour.

use vstd::prelude::*;

use crate::optimizer::compute;
use crate::optimizer::compute_ok;
use crate::optimizer::compute_sel_model;
use crate::optimizer::count_on;
use crate::optimizer::hours_of;
use crate::optimizer::slots_of;
use crate::optimizer::sum_on;
use crate::rule::Rule;
use crate::CoreError;

verus! {

/// Lifecycle status of a derived schedule.
#[derive(Clone, Copy, Debug, PartialEq, Eq, Structural)]
pub enum ScheduleStatus {
    Pending,
    Active,
    Completed,
    Failed,
}

/// The action a slot dictates for its interval.
#[derive(Clone, Copy, Debug, PartialEq, Eq, Structural)]
pub enum SlotAction {
    On,
    Off,
}

/// A contiguous interval `[start, end)` in minutes from midnight with a
/// single action. On the long clock-change day minutes run up to 1500.
#[derive(Clone, Copy, Debug, PartialEq, Eq, Structural)]
pub struct TimeSlot {
    pub start: u16,
    pub end: u16,
    pub action: SlotAction,
}

/// One hour's price, for presentation of a day's table.
#[derive(Clone, Copy, Debug, PartialEq, Eq, Structural)]
pub struct HourlyPrice {
    pub hour: u8,
    pub price: i64,
}

/// A derived schedule for one (device, rule, date) triple.
#[derive(Debug)]
pub struct Schedule {
    pub id: u128,
    pub user_id: u128,
    pub device_id: u128,
    pub rule_id: u128,
    pub date: i32,
    pub slots: Vec<TimeSlot>,
    pub total_cost: i64,
    pub status: ScheduleStatus,
    pub created_at: i64,
    pub updated_at: i64,
}

/// Mathematical image of a schedule.
#[verifier::ext_equal]
pub struct ScheduleView {
    pub id: u128,
    pub user_id: u128,
    pub device_id: u128,
    pub rule_id: u128,
    pub date: i32,
    pub slots: Seq<TimeSlot>,
    pub total_cost: i64,
    pub status: ScheduleStatus,
    pub created_at: i64,
    pub updated_at: i64,
}

impl View for Schedule {
    type V = ScheduleView;

    open spec fn view(&self) -> ScheduleView {
        ScheduleView {
            id: self.id,
            user_id: self.user_id,
            device_id: self.device_id,
            rule_id: self.rule_id,
            date: self.date,
            slots: self.slots@,
            total_cost: self.total_cost,
            status: self.status,
            created_at: self.created_at,
            updated_at: self.updated_at,
        }
    }
}

/// The fields supplied when creating a schedule row.
#[derive(Debug)]
pub struct NewSchedule {
    pub id: u128,
    pub user_id: u128,
    pub device_id: u128,
    pub rule_id: u128,
    pub date: i32,
    pub slots: Vec<TimeSlot>,
    pub total_cost: i64,
    pub status: ScheduleStatus,
}

/// The hourly price table of one day in one timezone; 24 entries, or 23/25
/// on clock-change days.
#[derive(Debug)]
pub struct DayPrice {
    pub id: u128,
    pub date: i32,
    pub timezone: String,
    pub prices: Vec<i64>,
    pub source: String,
    pub created_at: i64,
}

/// The fields supplied when storing a day's price table.
#[derive(Debug)]
pub struct NewDayPrice {
    pub id: u128,
    pub date: i32,
    pub timezone: String,
    pub prices: Vec<i64>,
    pub source: String,
}

/// Response describing a computed schedule.
#[derive(Debug)]
pub struct ScheduleResponse {
    pub device_id: u128,
    pub date: i32,
    pub slots: Vec<TimeSlot>,
    pub total_cost: i64,
    pub total_on_minutes: u32,
    pub shortfall_hours: u8,
}

/// Request body for previewing a schedule without persisting a rule.
#[derive(Debug)]
pub struct PreviewScheduleRequest {
    pub device_id: u128,
    pub rule_id: Option<u128>,
    pub date: i32,
    pub rule_params: Option<crate::rule::RuleParams>,
}

/// A slot is well-formed: non-empty, within the (at most 25-hour) day.
pub open spec fn slot_wf(s: TimeSlot) -> bool {
    s.start < s.end && s.end <= 1500
}

/// The slot invariant of every computed schedule: slots well-formed, sorted
/// by start, and separated by at least one OFF minute (so each is a maximal
/// ON run and no two overlap).
pub open spec fn slots_wf(sl: Seq<TimeSlot>) -> bool {
    &&& forall|i: int| 0 <= i < sl.len() ==> slot_wf(#[trigger] sl[i])
    &&& forall|i: int| 0 <= i && i + 1 < sl.len() ==> (#[trigger] sl[i]).end < sl[i + 1].start
}

/// Copies a slot list, preserving the sequence exactly.
pub fn clone_slots(sl: &Vec<TimeSlot>) -> (r: Vec<TimeSlot>)
    ensures
        r@ == sl@,
{
    let mut out: Vec<TimeSlot> = Vec::new();
    let mut i: usize = 0;
    while i < sl.len()
        invariant
            i <= sl.len(),
            out@ == sl@.subrange(0, i as int),
        decreases sl.len() - i,
    {
        out.push(sl[i]);
        i = i + 1;
    }
    assert(out@ =~= sl@);
    out
}

/// Copies a price list, preserving the sequence exactly.
pub fn clone_prices(p: &Vec<i64>) -> (r: Vec<i64>)
    ensures
        r@ == p@,
{
    let mut out: Vec<i64> = Vec::new();
    let mut i: usize = 0;
    while i < p.len()
        invariant
            i <= p.len(),
            out@ == p@.subrange(0, i as int),
        decreases p.len() - i,
    {
        out.push(p[i]);
        i = i + 1;
    }
    assert(out@ =~= p@);
    out
}

impl Schedule {
    /// The ordered slot sequence of this schedule.
    pub fn get_slots(&self) -> (r: Vec<TimeSlot>)
        ensures
            r@ == self.slots@,
    {
        clone_slots(&self.slots)
    }

    /// Whether the schedule is currently being executed.
    pub fn is_active(&self) -> (r: bool)
        ensures
            r == (self.status is Active),
    {
        matches!(self.status, ScheduleStatus::Active)
    }

    /// Whether the schedule is computed but not yet started.
    pub fn is_pending(&self) -> (r: bool)
        ensures
            r == (self.status is Pending),
    {
        matches!(self.status, ScheduleStatus::Pending)
    }
}

impl Clone for Schedule {
    fn clone(&self) -> (res: Self)
        ensures
            res@ == self@,
    {
        let res = Schedule {
            id: self.id,
            user_id: self.user_id,
            device_id: self.device_id,
            rule_id: self.rule_id,
            date: self.date,
            slots: clone_slots(&self.slots),
            total_cost: self.total_cost,
            status: self.status,
            created_at: self.created_at,
            updated_at: self.updated_at,
        };
        assert(res@ =~= self@);
        res
    }
}

/// Whether a schedule exists for the (device, rule, date) triple.
pub open spec fn spec_has_schedule(ss: Seq<Schedule>, device_id: u128, rule_id: u128, date: i32) -> bool {
    exists|i: int|
        0 <= i < ss.len() && (#[trigger] ss[i]).device_id == device_id && ss[i].rule_id == rule_id
            && ss[i].date == date
}

/// Whether any schedule row carries id `id`.
pub open spec fn spec_schedule_id_taken(ss: Seq<Schedule>, id: u128) -> bool {
    exists|i: int| 0 <= i < ss.len() && (#[trigger] ss[i]).id == id
}

/// The schedule-table change an evaluation performs: the (device, rule,
/// date) row is overwritten with the freshly computed slots and cost and
/// reset to `Pending`, or created under a fresh id when absent.
pub open spec fn spec_schedule_saved(
    pre: Seq<Schedule>,
    post: Seq<Schedule>,
    user: u128,
    device_id: u128,
    rule_id: u128,
    date: i32,
    slots: Seq<TimeSlot>,
    cost: i64,
    now: i64,
) -> bool {
    if spec_has_schedule(pre, device_id, rule_id, date) {
        exists|i: int|
            0 <= i < pre.len() && (#[trigger] pre[i]).device_id == device_id && pre[i].rule_id
                == rule_id && pre[i].date == date && post.len() == pre.len() && (forall|j: int|
                0 <= j < pre.len() && j != i ==> post[j] == #[trigger] pre[j]) && post[i]@
                == (ScheduleView {
                slots,
                total_cost: cost,
                status: ScheduleStatus::Pending,
                updated_at: now,
                ..pre[i]@
            })
    } else {
        &&& post.len() == pre.len() + 1
        &&& forall|j: int| 0 <= j < pre.len() ==> post[j] == #[trigger] pre[j]
        &&& post[pre.len() as int]@ == (ScheduleView {
            id: post[pre.len() as int]@.id,
            user_id: user,
            device_id,
            rule_id,
            date,
            slots,
            total_cost: cost,
            status: ScheduleStatus::Pending,
            created_at: now,
            updated_at: now,
        })
        &&& !spec_schedule_id_taken(pre, post[pre.len() as int]@.id)
    }
}

/// Whether the three lookups behind an evaluation succeed: the rule exists,
/// is the user's, belongs to the device, and a price table is stored for
/// the date in the rule's timezone.
pub open spec fn spec_eval_lookup_ok(
    s: crate::store::StoreView,
    user: u128,
    device_id: u128,
    rule_id: u128,
    date: i32,
) -> bool {
    exists|ri: int|
        0 <= ri < s.rules.len() && (#[trigger] s.rules[ri]).id == rule_id && s.rules[ri].user_id
            == user && s.rules[ri].device_id == device_id && exists|pi: int|
            0 <= pi < s.day_prices.len() && (#[trigger] s.day_prices[pi]).date == date
                && s.day_prices[pi].timezone@ == s.rules[ri].timezone@
}

/// The rule at index `ri` is due and able to be evaluated for `date`: an
/// enabled rule of `user` whose device is the user's, with a price table
/// stored for the date in its timezone that the optimizer accepts.
pub open spec fn spec_rule_evaluable(
    s: crate::store::StoreView,
    user: u128,
    ri: int,
    date: i32,
) -> bool {
    &&& 0 <= ri < s.rules.len()
    &&& s.rules[ri].user_id == user
    &&& s.rules[ri].enabled
    &&& exists|d: int|
        0 <= d < s.devices.len() && (#[trigger] s.devices[d]).id == s.rules[ri].device_id
            && s.devices[d].user_id == user
    &&& exists|pi: int|
        0 <= pi < s.day_prices.len() && (#[trigger] s.day_prices[pi]).date == date
            && s.day_prices[pi].timezone@ == s.rules[ri].timezone@ && compute_ok(
            s.day_prices[pi].prices@,
            s.rules[ri].params,
        )
}

/// The schedules table holds a fresh evaluation of rule `ri` for `date`:
/// its row's slots and cost equal the optimizer's model on the stored
/// prices, reset to `Pending` at time `now`.
pub open spec fn spec_evaluated_row(
    s: crate::store::StoreView,
    schedules: Seq<Schedule>,
    ri: int,
    date: i32,
    now: i64,
) -> bool {
    exists|si: int|
        0 <= si < schedules.len() && (#[trigger] schedules[si]).device_id
            == s.rules[ri].device_id && schedules[si].rule_id == s.rules[ri].id
            && schedules[si].date == date && schedules[si].status is Pending
            && schedules[si].updated_at == now && exists|pi: int|
            0 <= pi < s.day_prices.len() && (#[trigger] s.day_prices[pi]).date == date
                && s.day_prices[pi].timezone@ == s.rules[ri].timezone@ && schedules[si]@.slots
                == slots_of(compute_sel_model(s.day_prices[pi].prices@, s.rules[ri].params))
                && schedules[si].total_cost == sum_on(
                s.day_prices[pi].prices@,
                compute_sel_model(s.day_prices[pi].prices@, s.rules[ri].params),
            )
}

/// Whether a stored schedule row belongs to a triple some enabled rule of
/// `user` re-evaluates on a rebuild for `date`.
pub open spec fn spec_rebuild_target(rules: Seq<Rule>, user: u128, row: Schedule, date: i32) -> bool {
    row.date == date && exists|ri: int|
        0 <= ri < rules.len() && (#[trigger] rules[ri]).user_id == user && rules[ri].enabled
            && rules[ri].device_id == row.device_id && rules[ri].id == row.rule_id
}

/// The full effect of a successful evaluation of rule `rule_id` for
/// (`device_id`, `date`): the caller owns the device, the rule and its
/// priced day exist, the response carries the optimizer's slots, cost,
/// ON minutes and shortfall, and the schedule row was saved.
pub open spec fn spec_evaluation_ok(
    pre: crate::store::StoreView,
    post: crate::store::StoreView,
    user: u128,
    device_id: u128,
    rule_id: u128,
    date: i32,
    now: i64,
    resp: ScheduleResponse,
) -> bool {
    &&& crate::store::view_owns_device(pre, user, device_id)
    &&& exists|ri: int|
        0 <= ri < pre.rules.len() && (#[trigger] pre.rules[ri]).id == rule_id
            && pre.rules[ri].user_id == user && pre.rules[ri].device_id == device_id && exists|
            pi: int,
        |
            0 <= pi < pre.day_prices.len() && (#[trigger] pre.day_prices[pi]).date == date
                && pre.day_prices[pi].timezone@ == pre.rules[ri].timezone@ && ({
                let p = pre.day_prices[pi].prices@;
                let rp = pre.rules[ri].params;
                let sel = compute_sel_model(p, rp);
                &&& compute_ok(p, rp)
                &&& resp.device_id == device_id
                &&& resp.date == date
                &&& resp.slots@ == slots_of(sel)
                &&& resp.total_cost == sum_on(p, sel)
                &&& resp.total_on_minutes == 60 * count_on(sel)
                &&& resp.shortfall_hours as int == (if hours_of(rp) > count_on(sel) {
                    hours_of(rp) - count_on(sel)
                } else {
                    0int
                })
                &&& spec_schedule_saved(
                    pre.schedules,
                    post.schedules,
                    user,
                    device_id,
                    rule_id,
                    date,
                    slots_of(sel),
                    resp.total_cost,
                    now,
                )
            })
}

/// Exactly when each evaluation error arises: `NotFound` when a lookup
/// fails; `InvalidRuleParameters` when the looked-up day and parameters
/// are rejected by the optimizer; `StorageConflict` only for a fresh
/// (device, rule, date) triple whose evaluation succeeded but whose
/// randomly drawn row id was already taken.
pub open spec fn spec_evaluation_err(
    pre: crate::store::StoreView,
    user: u128,
    device_id: u128,
    rule_id: u128,
    date: i32,
    e: CoreError,
) -> bool {
    ||| (e == CoreError::NotFound && !(crate::store::view_owns_device(pre, user, device_id)
        && spec_eval_lookup_ok(pre, user, device_id, rule_id, date)))
    ||| (e == CoreError::InvalidRuleParameters && exists|ri: int, pi: int|
        0 <= ri < pre.rules.len() && (#[trigger] pre.rules[ri]).id == rule_id
            && pre.rules[ri].user_id == user && pre.rules[ri].device_id == device_id && 0 <= pi
            < pre.day_prices.len() && (#[trigger] pre.day_prices[pi]).date == date
            && pre.day_prices[pi].timezone@ == pre.rules[ri].timezone@ && !compute_ok(
            pre.day_prices[pi].prices@,
            pre.rules[ri].params,
        ))
    ||| (e == CoreError::StorageConflict && crate::store::view_owns_device(pre, user, device_id)
        && !spec_has_schedule(pre.schedules, device_id, rule_id, date) && exists|ri: int, pi: int|
        0 <= ri < pre.rules.len() && (#[trigger] pre.rules[ri]).id == rule_id
            && pre.rules[ri].user_id == user && pre.rules[ri].device_id == device_id && 0 <= pi
            < pre.day_prices.len() && (#[trigger] pre.day_prices[pi]).date == date
            && pre.day_prices[pi].timezone@ == pre.rules[ri].timezone@ && compute_ok(
            pre.day_prices[pi].prices@,
            pre.rules[ri].params,
        ))
}

impl crate::store::Store {
    /// The index of the schedule for (device, rule, date), if any.
    fn find_schedule_index(&self, device_id: u128, rule_id: u128, date: i32) -> (r: Option<usize>)
        ensures
            match r {
                Some(i) => i < self@.schedules.len() && self@.schedules[i as int].device_id
                    == device_id && self@.schedules[i as int].rule_id == rule_id
                    && self@.schedules[i as int].date == date,
                None => !spec_has_schedule(self@.schedules, device_id, rule_id, date),
            },
    {
        let mut i: usize = 0;
        while i < self.schedules.len()
            invariant
                i <= self.schedules.len(),
                forall|j: int|
                    0 <= j < i ==> !((#[trigger] self@.schedules[j]).device_id == device_id
                        && self@.schedules[j].rule_id == rule_id && self@.schedules[j].date
                        == date),
            decreases self.schedules.len() - i,
        {
            if self.schedules[i].device_id == device_id && self.schedules[i].rule_id == rule_id
                && self.schedules[i].date == date {
                return Some(i);
            }
            i = i + 1;
        }
        None
    }

    /// Whether any schedule row carries id `id`.
    fn schedule_id_taken(&self, id: u128) -> (r: bool)
        ensures
            r == spec_schedule_id_taken(self@.schedules, id),
    {
        let mut i: usize = 0;
        while i < self.schedules.len()
            invariant
                i <= self.schedules.len(),
                forall|j: int| 0 <= j < i ==> (#[trigger] self@.schedules[j]).id != id,
            decreases self.schedules.len() - i,
        {
            if self.schedules[i].id == id {
                return true;
            }
            i = i + 1;
        }
        false
    }

    /// Evaluates a rule against the stored price table for `date` and
    /// persists the resulting schedule for (device, rule, date) at time
    /// `now`, overwriting a previous evaluation. Returns the schedule
    /// descriptor, with any shortfall reported in it.
    ///
    /// `NotFound` when the device is not the user's, the rule is not the
    /// user's rule for that device, or no price table is stored for the
    /// date in the rule's timezone. `InvalidRuleParameters` when the day
    /// and parameters are rejected by the optimizer. `StorageConflict` only
    /// in the (random, vanishingly unlikely) event of an id collision.
    pub fn evaluate_schedule(
        &mut self,
        user: u128,
        device_id: u128,
        rule_id: u128,
        date: i32,
        now: i64,
    ) -> (r: Result<ScheduleResponse, CoreError>)
        requires
            old(self).wf(),
        ensures
            final(self).wf(),
            crate::store::unchanged_except_schedules(old(self)@, final(self)@),
            match r {
                Ok(resp) => spec_evaluation_ok(
                    old(self)@,
                    final(self)@,
                    user,
                    device_id,
                    rule_id,
                    date,
                    now,
                    resp,
                ),
                Err(e) => final(self)@ == old(self)@ && spec_evaluation_err(
                    old(self)@,
                    user,
                    device_id,
                    rule_id,
                    date,
                    e,
                ),
            },
    {
        if !self.verify_device_ownership(user, device_id) {
            return Err(CoreError::NotFound);
        }
        let ri = match self.find_rule_index(rule_id) {
            None => {
                return Err(CoreError::NotFound);
            },
            Some(i) => i,
        };
        if self.rules[ri].user_id != user || self.rules[ri].device_id != device_id {
            proof {
                assert forall|j: int|
                    0 <= j < self@.rules.len() implies !((#[trigger] self@.rules[j]).id == rule_id
                    && self@.rules[j].user_id == user && self@.rules[j].device_id == device_id) by {
                    if self@.rules[j].id == rule_id {
                        assert(j == ri as int);
                    }
                }
            }
            return Err(CoreError::NotFound);
        }
        let pi = match self.find_price_index_for_rule(date, ri) {
            None => {
                return Err(CoreError::NotFound);
            },
            Some(i) => i,
        };
        let pvec = clone_prices(&self.day_prices[pi].prices);
        let out = match compute(&pvec, &self.rules[ri].params) {
            Err(e) => {
                return Err(e);
            },
            Ok(out) => out,
        };
        let ghost pre = self@.schedules;
        match self.find_schedule_index(device_id, rule_id, date) {
            Some(si) => {
                let mut row = self.schedules.remove(si);
                row.slots = clone_slots(&out.slots);
                row.total_cost = out.total_cost;
                row.status = ScheduleStatus::Pending;
                row.updated_at = now;
                self.schedules.insert(si, row);
                proof {
                    assert(self@.schedules.len() == pre.len());
                    assert(forall|j: int|
                        0 <= j < pre.len() && j != si ==> self@.schedules[j] == pre[j]);
                    assert(self@.schedules[si as int]@ =~= (ScheduleView {
                        slots: out.slots@,
                        total_cost: out.total_cost,
                        status: ScheduleStatus::Pending,
                        updated_at: now,
                        ..pre[si as int]@
                    }));
                    assert(crate::store::schedules_wf(self@.schedules));
                }
            },
            None => {
                let sid = crate::platform::fresh_id();
                if self.schedule_id_taken(sid) {
                    return Err(CoreError::StorageConflict);
                }
                let row = Schedule {
                    id: sid,
                    user_id: user,
                    device_id,
                    rule_id,
                    date,
                    slots: clone_slots(&out.slots),
                    total_cost: out.total_cost,
                    status: ScheduleStatus::Pending,
                    created_at: now,
                    updated_at: now,
                };
                self.schedules.push(row);
                proof {
                    assert(self@.schedules[pre.len() as int]@ =~= (ScheduleView {
                        id: sid,
                        user_id: user,
                        device_id,
                        rule_id,
                        date,
                        slots: out.slots@,
                        total_cost: out.total_cost,
                        status: ScheduleStatus::Pending,
                        created_at: now,
                        updated_at: now,
                    }));
                    assert(crate::store::schedules_wf(self@.schedules));
                }
            },
        }
        let total_on_minutes: u32 = 60 * (out.on_hours as u32);
        Ok(
            ScheduleResponse {
                device_id,
                date,
                slots: out.slots,
                total_cost: out.total_cost,
                total_on_minutes,
                shortfall_hours: out.shortfall_hours,
            },
        )
    }

    /// Evaluates the one rule whose output applies to the device today —
    /// among its enabled rules, the one with the lowest priority value,
    /// ties broken by earliest creation, then table order — and persists
    /// that rule's schedule for `date` at time `now`. Exactly one rule's
    /// schedule applies per device per day; `NotFound` when the device has
    /// no enabled rule at all.
    pub fn evaluate_device_schedule(
        &mut self,
        user: u128,
        device_id: u128,
        date: i32,
        now: i64,
    ) -> (r: Result<ScheduleResponse, CoreError>)
        requires
            old(self).wf(),
        ensures
            final(self).wf(),
            crate::store::unchanged_except_schedules(old(self)@, final(self)@),
            match r {
                Ok(resp) => exists|i: int|
                    0 <= i < old(self)@.rules.len() && (#[trigger] old(
                        self,
                    )@.rules[i]).device_id == device_id && old(self)@.rules[i].enabled && (forall|
                        j: int,
                    |
                        0 <= j < old(self)@.rules.len() && (#[trigger] old(
                            self,
                        )@.rules[j]).device_id == device_id && old(self)@.rules[j].enabled
                            ==> crate::rule::rule_precedes(
                            old(self)@.rules[i],
                            i,
                            old(self)@.rules[j],
                            j,
                        )) && spec_evaluation_ok(
                        old(self)@,
                        final(self)@,
                        user,
                        device_id,
                        old(self)@.rules[i].id,
                        date,
                        now,
                        resp,
                    ),
                Err(e) => final(self)@ == old(self)@ && ((e == CoreError::NotFound && forall|
                    j: int,
                |
                    0 <= j < old(self)@.rules.len() ==> !((#[trigger] old(
                        self,
                    )@.rules[j]).device_id == device_id && old(self)@.rules[j].enabled)) || exists|
                    i: int,
                |
                    0 <= i < old(self)@.rules.len() && (#[trigger] old(
                        self,
                    )@.rules[i]).device_id == device_id && old(self)@.rules[i].enabled
                        && spec_evaluation_err(
                        old(self)@,
                        user,
                        device_id,
                        old(self)@.rules[i].id,
                        date,
                        e,
                    )),
            },
    {
        match self.select_active_rule(device_id) {
            None => Err(CoreError::NotFound),
            Some(rl) => self.evaluate_schedule(user, device_id, rl.id, date, now),
        }
    }

    /// The index of the price table for `date` in the timezone of the rule
    /// at index `ri`, if any.
    fn find_price_index_for_rule(&self, date: i32, ri: usize) -> (r: Option<usize>)
        requires
            ri < self@.rules.len(),
        ensures
            match r {
                Some(i) => i < self@.day_prices.len() && self@.day_prices[i as int].date == date
                    && self@.day_prices[i as int].timezone@ == self@.rules[ri as int].timezone@,
                None => forall|j: int|
                    0 <= j < self@.day_prices.len() ==> !((#[trigger] self@.day_prices[j]).date
                        == date && self@.day_prices[j].timezone@
                        == self@.rules[ri as int].timezone@),
            },
    {
        let mut i: usize = 0;
        while i < self.day_prices.len()
            invariant
                ri < self@.rules.len(),
                i <= self.day_prices.len(),
                forall|j: int|
                    0 <= j < i ==> !((#[trigger] self@.day_prices[j]).date == date
                        && self@.day_prices[j].timezone@ == self@.rules[ri as int].timezone@),
            decreases self.day_prices.len() - i,
        {
            if self.day_prices[i].date == date && self.day_prices[i].timezone
                == self.rules[ri].timezone {
                return Some(i);
            }
            i = i + 1;
        }
        None
    }

    /// All schedules of `user`, in insertion order.
    pub fn list_schedules(&self, user: u128) -> (r: Vec<Schedule>)
        ensures
            r@.map_values(|x: Schedule| x@) == self@.schedules.filter(
                |x: Schedule| x.user_id == user,
            ).map_values(|x: Schedule| x@),
    {
        let mut out: Vec<Schedule> = Vec::new();
        let mut i: usize = 0;
        while i < self.schedules.len()
            invariant
                i <= self.schedules.len(),
                out@.map_values(|x: Schedule| x@) == self@.schedules.subrange(0, i as int).filter(
                    |x: Schedule| x.user_id == user,
                ).map_values(|x: Schedule| x@),
            decreases self.schedules.len() - i,
        {
            let ghost prefix = self@.schedules.subrange(0, i as int);
            let ghost next_prefix = self@.schedules.subrange(0, i + 1 as int);
            proof {
                assert(next_prefix.drop_last() =~= prefix);
                assert(next_prefix.last() == self@.schedules[i as int]);
                reveal_with_fuel(Seq::filter, 2);
            }
            if self.schedules[i].user_id == user {
                let row = self.schedules[i].clone();
                out.push(row);
                proof {
                    let f = |x: Schedule| x@;
                    let pred = |x: Schedule| x.user_id == user;
                    assert(out@.map_values(f) =~= prefix.filter(pred).map_values(f).push(
                        self@.schedules[i as int]@,
                    ));
                    assert(next_prefix.filter(pred) =~= prefix.filter(pred).push(
                        self@.schedules[i as int],
                    ));
                    assert(next_prefix.filter(pred).map_values(f) =~= prefix.filter(
                        pred,
                    ).map_values(f).push(self@.schedules[i as int]@));
                }
            } else {
                proof {
                    assert(next_prefix.filter(|x: Schedule| x.user_id == user) =~= prefix.filter(
                        |x: Schedule| x.user_id == user,
                    ));
                }
            }
            i = i + 1;
        }
        proof {
            assert(self@.schedules.subrange(0, self@.schedules.len() as int) =~= self@.schedules);
        }
        out
    }

    /// The schedules of `user` for one date, in insertion order.
    pub fn get_today_schedules(&self, user: u128, date: i32) -> (r: Vec<Schedule>)
        ensures
            r@.map_values(|x: Schedule| x@) == self@.schedules.filter(
                |x: Schedule| x.user_id == user && x.date == date,
            ).map_values(|x: Schedule| x@),
    {
        let mut out: Vec<Schedule> = Vec::new();
        let mut i: usize = 0;
        while i < self.schedules.len()
            invariant
                i <= self.schedules.len(),
                out@.map_values(|x: Schedule| x@) == self@.schedules.subrange(0, i as int).filter(
                    |x: Schedule| x.user_id == user && x.date == date,
                ).map_values(|x: Schedule| x@),
            decreases self.schedules.len() - i,
        {
            let ghost prefix = self@.schedules.subrange(0, i as int);
            let ghost next_prefix = self@.schedules.subrange(0, i + 1 as int);
            proof {
                assert(next_prefix.drop_last() =~= prefix);
                assert(next_prefix.last() == self@.schedules[i as int]);
                reveal_with_fuel(Seq::filter, 2);
            }
            if self.schedules[i].user_id == user && self.schedules[i].date == date {
                let row = self.schedules[i].clone();
                out.push(row);
                proof {
                    let f = |x: Schedule| x@;
                    let pred = |x: Schedule| x.user_id == user && x.date == date;
                    assert(out@.map_values(f) =~= prefix.filter(pred).map_values(f).push(
                        self@.schedules[i as int]@,
                    ));
                    assert(next_prefix.filter(pred) =~= prefix.filter(pred).push(
                        self@.schedules[i as int],
                    ));
                    assert(next_prefix.filter(pred).map_values(f) =~= prefix.filter(
                        pred,
                    ).map_values(f).push(self@.schedules[i as int]@));
                }
            } else {
                proof {
                    assert(next_prefix.filter(
                        |x: Schedule| x.user_id == user && x.date == date,
                    ) =~= prefix.filter(|x: Schedule| x.user_id == user && x.date == date));
                }
            }
            i = i + 1;
        }
        proof {
            assert(self@.schedules.subrange(0, self@.schedules.len() as int) =~= self@.schedules);
        }
        out
    }

    /// Re-evaluates every enabled rule of `user` for `date` at time `now`,
    /// as after a price or rule change, and reports how many schedules were
    /// successfully recomputed.
    ///
    /// Every evaluable rule (enabled, device owned, priced day the
    /// optimizer accepts) ends with its (device, rule, date) row holding
    /// the freshly computed slots and cost, pending — except that a random
    /// id collision can fail a rule whose row did not exist yet, leaving no
    /// row for that triple; a rule whose row already existed is owed its
    /// re-evaluation. Rows of triples no enabled rule of the user targets
    /// are untouched, and rules whose evaluation fails (no price table,
    /// infeasible parameters) are skipped, not retried.
    pub fn rebuild_schedules(&mut self, user: u128, date: i32, now: i64) -> (n: usize)
        requires
            old(self).wf(),
        ensures
            final(self).wf(),
            crate::store::unchanged_except_schedules(old(self)@, final(self)@),
            n <= old(self)@.rules.len(),
            final(self)@.schedules.len() >= old(self)@.schedules.len(),
            forall|ri: int|
                #[trigger] spec_rule_evaluable(old(self)@, user, ri, date) ==> spec_evaluated_row(
                    old(self)@,
                    final(self)@.schedules,
                    ri,
                    date,
                    now,
                ) || !spec_has_schedule(
                    final(self)@.schedules,
                    old(self)@.rules[ri].device_id,
                    old(self)@.rules[ri].id,
                    date,
                ),
            forall|ri: int|
                #[trigger] spec_rule_evaluable(old(self)@, user, ri, date) && spec_has_schedule(
                    old(self)@.schedules,
                    old(self)@.rules[ri].device_id,
                    old(self)@.rules[ri].id,
                    date,
                ) ==> spec_evaluated_row(old(self)@, final(self)@.schedules, ri, date, now),
            forall|j: int|
                0 <= j < old(self)@.schedules.len() && !spec_rebuild_target(
                    old(self)@.rules,
                    user,
                    #[trigger] old(self)@.schedules[j],
                    date,
                ) ==> final(self)@.schedules[j] == old(self)@.schedules[j],
    {
        let mut n: usize = 0;
        let mut ri: usize = 0;
        while ri < self.rules.len()
            invariant
                self.wf(),
                ri <= self@.rules.len(),
                n <= ri,
                crate::store::unchanged_except_schedules(old(self)@, self@),
                old(self).wf(),
                self@.schedules.len() >= old(self)@.schedules.len(),
                forall|j: int|
                    0 <= j < old(self)@.schedules.len() ==> (
                    #[trigger] self@.schedules[j]).device_id == old(
                        self,
                    )@.schedules[j].device_id && self@.schedules[j].rule_id == old(
                        self,
                    )@.schedules[j].rule_id && self@.schedules[j].date == old(
                        self,
                    )@.schedules[j].date,
                forall|j: int|
                    0 <= j < old(self)@.schedules.len() && !spec_rebuild_target(
                        old(self)@.rules,
                        user,
                        #[trigger] old(self)@.schedules[j],
                        date,
                    ) ==> self@.schedules[j] == old(self)@.schedules[j],
                forall|r2: int|
                    0 <= r2 < ri && #[trigger] spec_rule_evaluable(old(self)@, user, r2, date)
                        ==> spec_evaluated_row(old(self)@, self@.schedules, r2, date, now)
                        || !spec_has_schedule(
                        self@.schedules,
                        old(self)@.rules[r2].device_id,
                        old(self)@.rules[r2].id,
                        date,
                    ),
                forall|r2: int|
                    0 <= r2 < ri && #[trigger] spec_rule_evaluable(old(self)@, user, r2, date)
                        && spec_has_schedule(
                        old(self)@.schedules,
                        old(self)@.rules[r2].device_id,
                        old(self)@.rules[r2].id,
                        date,
                    ) ==> spec_evaluated_row(old(self)@, self@.schedules, r2, date, now),
            decreases self.rules.len() - ri,
        {
            if self.rules[ri].user_id == user && self.rules[ri].enabled {
                let device_id = self.rules[ri].device_id;
                let rule_id = self.rules[ri].id;
                let ghost pre_view = self@;
                proof {
                    assert(self@.rules == old(self)@.rules);
                    // a pre-existing row for this triple is still present
                    if spec_has_schedule(old(self)@.schedules, device_id, rule_id, date) {
                        let j = choose|j: int|
                            0 <= j < old(self)@.schedules.len() && (#[trigger] old(
                                self,
                            )@.schedules[j]).device_id == device_id && old(
                                self,
                            )@.schedules[j].rule_id == rule_id && old(self)@.schedules[j].date
                                == date;
                        assert(self@.schedules[j].device_id == device_id);
                        assert(spec_has_schedule(self@.schedules, device_id, rule_id, date));
                    }
                }
                match self.evaluate_schedule(user, device_id, rule_id, date, now) {
                    Ok(resp) => {
                        n = n + 1;
                        proof {
                            let rx = choose|rx: int|
                                0 <= rx < pre_view.rules.len() && (
                                #[trigger] pre_view.rules[rx]).id == rule_id
                                    && pre_view.rules[rx].user_id == user
                                    && pre_view.rules[rx].device_id == device_id && exists|
                                    px: int,
                                |
                                    0 <= px < pre_view.day_prices.len() && (
                                    #[trigger] pre_view.day_prices[px]).date == date
                                        && pre_view.day_prices[px].timezone@
                                        == pre_view.rules[rx].timezone@ && ({
                                        let p = pre_view.day_prices[px].prices@;
                                        let rp = pre_view.rules[rx].params;
                                        let sel = compute_sel_model(p, rp);
                                        &&& compute_ok(p, rp)
                                        &&& resp.slots@ == slots_of(sel)
                                        &&& resp.total_cost == sum_on(p, sel)
                                        &&& spec_schedule_saved(
                                            pre_view.schedules,
                                            self@.schedules,
                                            user,
                                            device_id,
                                            rule_id,
                                            date,
                                            slots_of(sel),
                                            resp.total_cost,
                                            now,
                                        )
                                    });
                            assert(rx == ri as int) by {
                                assert(crate::store::rules_wf(old(self)@.rules));
                                assert(pre_view.rules == old(self)@.rules);
                            }
                            let px = choose|px: int|
                                0 <= px < pre_view.day_prices.len() && (
                                #[trigger] pre_view.day_prices[px]).date == date
                                    && pre_view.day_prices[px].timezone@
                                    == pre_view.rules[rx].timezone@ && ({
                                    let p = pre_view.day_prices[px].prices@;
                                    let rp = pre_view.rules[rx].params;
                                    let sel = compute_sel_model(p, rp);
                                    &&& compute_ok(p, rp)
                                    &&& resp.slots@ == slots_of(sel)
                                    &&& resp.total_cost == sum_on(p, sel)
                                    &&& spec_schedule_saved(
                                        pre_view.schedules,
                                        self@.schedules,
                                        user,
                                        device_id,
                                        rule_id,
                                        date,
                                        slots_of(sel),
                                        resp.total_cost,
                                        now,
                                    )
                                });
                            let ghost p = pre_view.day_prices[px].prices@;
                            let ghost rp = pre_view.rules[rx].params;
                            let ghost sel = compute_sel_model(p, rp);
                            let pre_s = pre_view.schedules;
                            let post_s = self@.schedules;
                            assert(pre_view.day_prices == old(self)@.day_prices);
                            // the freshly written row
                            let si: int = if spec_has_schedule(pre_s, device_id, rule_id, date) {
                                choose|si: int|
                                    0 <= si < pre_s.len() && (#[trigger] pre_s[si]).device_id
                                        == device_id && pre_s[si].rule_id == rule_id
                                        && pre_s[si].date == date && post_s.len() == pre_s.len()
                                        && (forall|j: int|
                                        0 <= j < pre_s.len() && j != si ==> post_s[j]
                                            == #[trigger] pre_s[j]) && post_s[si]@
                                        == (ScheduleView {
                                        slots: slots_of(sel),
                                        total_cost: resp.total_cost,
                                        status: ScheduleStatus::Pending,
                                        updated_at: now,
                                        ..pre_s[si]@
                                    })
                            } else {
                                pre_s.len() as int
                            };
                            assert(0 <= si < post_s.len() && post_s[si].device_id == device_id
                                && post_s[si].rule_id == rule_id && post_s[si].date == date
                                && post_s[si].status is Pending && post_s[si].updated_at == now
                                && post_s[si]@.slots == slots_of(sel) && post_s[si].total_cost
                                == resp.total_cost && (forall|j: int|
                                0 <= j < pre_s.len() && j != si ==> post_s[j]
                                    == #[trigger] pre_s[j]) && post_s.len() >= pre_s.len());
                            assert(spec_evaluated_row(old(self)@, post_s, ri as int, date, now));
                            // the row this step wrote belongs to this rule's triple;
                            // everything else survives untouched
                            assert forall|r2: int|
                                0 <= r2 < ri + 1 && #[trigger] spec_rule_evaluable(
                                    old(self)@,
                                    user,
                                    r2,
                                    date,
                                ) implies spec_evaluated_row(old(self)@, post_s, r2, date, now)
                                || !spec_has_schedule(
                                post_s,
                                old(self)@.rules[r2].device_id,
                                old(self)@.rules[r2].id,
                                date,
                            ) by {
                                if r2 < ri as int {
                                    assert(old(self)@.rules[r2].id != rule_id) by {
                                        assert(crate::store::rules_wf(old(self)@.rules));
                                    }
                                    if spec_evaluated_row(old(self)@, pre_s, r2, date, now) {
                                        let s2 = choose|s2: int|
                                            0 <= s2 < pre_s.len() && (
                                            #[trigger] pre_s[s2]).device_id == old(
                                                self,
                                            )@.rules[r2].device_id && pre_s[s2].rule_id == old(
                                                self,
                                            )@.rules[r2].id && pre_s[s2].date == date
                                                && pre_s[s2].status is Pending
                                                && pre_s[s2].updated_at == now && exists|pi: int|
                                                0 <= pi < old(self)@.day_prices.len() && (
                                                #[trigger] old(self)@.day_prices[pi]).date == date
                                                    && old(self)@.day_prices[pi].timezone@ == old(
                                                    self,
                                                )@.rules[r2].timezone@ && pre_s[s2]@.slots
                                                    == slots_of(
                                                    compute_sel_model(
                                                        old(self)@.day_prices[pi].prices@,
                                                        old(self)@.rules[r2].params,
                                                    ),
                                                ) && pre_s[s2].total_cost == sum_on(
                                                    old(self)@.day_prices[pi].prices@,
                                                    compute_sel_model(
                                                        old(self)@.day_prices[pi].prices@,
                                                        old(self)@.rules[r2].params,
                                                    ),
                                                );
                                        assert(s2 != si);
                                        assert(post_s[s2] == pre_s[s2]);
                                        assert(spec_evaluated_row(
                                            old(self)@,
                                            post_s,
                                            r2,
                                            date,
                                            now,
                                        ));
                                    } else {
                                        assert(!spec_has_schedule(
                                            pre_s,
                                            old(self)@.rules[r2].device_id,
                                            old(self)@.rules[r2].id,
                                            date,
                                        ));
                                        assert forall|j: int| 0 <= j < post_s.len() implies !((
                                        #[trigger] post_s[j]).device_id == old(
                                            self,
                                        )@.rules[r2].device_id && post_s[j].rule_id == old(
                                            self,
                                        )@.rules[r2].id && post_s[j].date == date) by {
                                            if j == si {
                                            } else if j < pre_s.len() {
                                                assert(post_s[j] == pre_s[j]);
                                            }
                                        }
                                    }
                                }
                            }
                            assert forall|r2: int|
                                0 <= r2 < ri + 1 && #[trigger] spec_rule_evaluable(
                                    old(self)@,
                                    user,
                                    r2,
                                    date,
                                ) && spec_has_schedule(
                                    old(self)@.schedules,
                                    old(self)@.rules[r2].device_id,
                                    old(self)@.rules[r2].id,
                                    date,
                                ) implies spec_evaluated_row(
                                old(self)@,
                                post_s,
                                r2,
                                date,
                                now,
                            ) by {
                                if r2 < ri as int {
                                    assert(spec_evaluated_row(old(self)@, pre_s, r2, date, now));
                                    assert(old(self)@.rules[r2].id != rule_id) by {
                                        assert(crate::store::rules_wf(old(self)@.rules));
                                    }
                                    let s2 = choose|s2: int|
                                        0 <= s2 < pre_s.len() && (#[trigger] pre_s[s2]).device_id
                                            == old(self)@.rules[r2].device_id && pre_s[s2].rule_id
                                            == old(self)@.rules[r2].id && pre_s[s2].date == date
                                            && pre_s[s2].status is Pending && pre_s[s2].updated_at
                                            == now && exists|pi: int|
                                            0 <= pi < old(self)@.day_prices.len() && (
                                            #[trigger] old(self)@.day_prices[pi]).date == date
                                                && old(self)@.day_prices[pi].timezone@ == old(
                                                self,
                                            )@.rules[r2].timezone@ && pre_s[s2]@.slots == slots_of(
                                                compute_sel_model(
                                                    old(self)@.day_prices[pi].prices@,
                                                    old(self)@.rules[r2].params,
                                                ),
                                            ) && pre_s[s2].total_cost == sum_on(
                                                old(self)@.day_prices[pi].prices@,
                                                compute_sel_model(
                                                    old(self)@.day_prices[pi].prices@,
                                                    old(self)@.rules[r2].params,
                                                ),
                                            );
                                    assert(s2 != si);
                                    assert(post_s[s2] == pre_s[s2]);
                                }
                            }
                            // triple stability and untouched rows
                            assert forall|j: int| 0 <= j < old(self)@.schedules.len() implies (
                            #[trigger] post_s[j]).device_id == old(self)@.schedules[j].device_id
                                && post_s[j].rule_id == old(self)@.schedules[j].rule_id
                                && post_s[j].date == old(self)@.schedules[j].date by {
                                if j != si {
                                    assert(post_s[j] == pre_s[j]);
                                }
                            }
                            assert forall|j: int|
                                0 <= j < old(self)@.schedules.len() && !spec_rebuild_target(
                                    old(self)@.rules,
                                    user,
                                    #[trigger] old(self)@.schedules[j],
                                    date,
                                ) implies post_s[j] == old(self)@.schedules[j] by {
                                if j == si {
                                    assert(old(self)@.schedules[si].device_id == device_id
                                        && old(self)@.schedules[si].rule_id == rule_id && old(
                                        self,
                                    )@.schedules[si].date == date);
                                    assert(old(self)@.rules[ri as int].user_id == user && old(
                                        self,
                                    )@.rules[ri as int].enabled);
                                    assert(spec_rebuild_target(
                                        old(self)@.rules,
                                        user,
                                        old(self)@.schedules[j],
                                        date,
                                    ));
                                } else {
                                    assert(post_s[j] == pre_s[j]);
                                }
                            }
                        }
                    },
                    Err(e) => {
                        proof {
                            if spec_rule_evaluable(old(self)@, user, ri as int, date) {
                                assert(pre_view.rules == old(self)@.rules);
                                assert(pre_view.devices == old(self)@.devices);
                                assert(pre_view.day_prices == old(self)@.day_prices);
                                let pi = choose|pi: int|
                                    0 <= pi < old(self)@.day_prices.len() && (#[trigger] old(
                                        self,
                                    )@.day_prices[pi]).date == date && old(
                                        self,
                                    )@.day_prices[pi].timezone@ == old(
                                        self,
                                    )@.rules[ri as int].timezone@ && compute_ok(
                                        old(self)@.day_prices[pi].prices@,
                                        old(self)@.rules[ri as int].params,
                                    );
                                // the lookups cannot have failed
                                assert(spec_eval_lookup_ok(pre_view, user, device_id, rule_id, date))
                                    by {
                                    assert((#[trigger] pre_view.rules[ri as int]).id == rule_id);
                                    assert((#[trigger] pre_view.day_prices[pi]).date == date);
                                }
                                assert(e != CoreError::NotFound);
                                // nor the optimizer: the matching price table is unique
                                assert(e != CoreError::InvalidRuleParameters) by {
                                    if e == CoreError::InvalidRuleParameters {
                                        let (rx, px): (int, int) = choose|rx: int, px: int|
                                            0 <= rx < pre_view.rules.len() && (
                                            #[trigger] pre_view.rules[rx]).id == rule_id
                                                && pre_view.rules[rx].user_id == user
                                                && pre_view.rules[rx].device_id == device_id && 0
                                                <= px < pre_view.day_prices.len() && (
                                            #[trigger] pre_view.day_prices[px]).date == date
                                                && pre_view.day_prices[px].timezone@
                                                == pre_view.rules[rx].timezone@ && !compute_ok(
                                                pre_view.day_prices[px].prices@,
                                                pre_view.rules[rx].params,
                                            );
                                        assert(rx == ri as int) by {
                                            assert(crate::store::rules_wf(old(self)@.rules));
                                        }
                                        assert(px == pi) by {
                                            assert(crate::store::day_prices_wf(
                                                old(self)@.day_prices,
                                            ));
                                        }
                                    }
                                }
                                assert(e == CoreError::StorageConflict);
                                assert(!spec_has_schedule(pre_view.schedules, device_id, rule_id, date));
                                // a pre-existing row would still be present, so the
                                // collision can only strike a fresh triple
                                assert(!spec_has_schedule(
                                    old(self)@.schedules,
                                    device_id,
                                    rule_id,
                                    date,
                                )) by {
                                    if spec_has_schedule(
                                        old(self)@.schedules,
                                        device_id,
                                        rule_id,
                                        date,
                                    ) {
                                        assert(spec_has_schedule(
                                            pre_view.schedules,
                                            device_id,
                                            rule_id,
                                            date,
                                        ));
                                    }
                                }
                            }
                        }
                    },
                }
            }
            ri = ri + 1;
        }
        n
    }
}

} // verus!
