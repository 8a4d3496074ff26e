//! User-configured scheduling rules: a closed set of variants, each with a
//! validated parameter structure.
//!
//! A rule belongs to a device, carries a timezone, a priority (lower value =
//! higher precedence) and an enabled flag. Parameters must validate against
//! the variant's schema before a rule is persisted or evaluated.

use vstd::prelude::*;

use crate::CoreError;

verus! {

/// Clock times are minutes since midnight; a window lies within one day.
pub const MINUTES_PER_DAY: u16 = 1440;

/// Upper bound on the number of hours in one calendar day (25 on the long
/// clock-change day), so schema validation can bound hour counts before the
/// day's actual price vector is known.
pub const MAX_DAY_HOURS: u8 = 25;

/// The closed set of rule variants.
#[derive(Clone, Copy, Debug, PartialEq, Eq, Structural)]
pub enum RuleType {
    MinHoursCheapest,
    XHoursWithinWindows,
}

/// A clock-time window `[start, end)` in minutes since midnight.
#[derive(Clone, Copy, Debug, PartialEq, Eq, Structural)]
pub struct TimeWindow {
    pub start: u16,
    pub end: u16,
}

/// Parameters of `MinHoursCheapest`: run at least `min_hours_per_day` hours,
/// in the cheapest hours of the day, optionally bounded in daily ON/OFF
/// switches and required to run in contiguous blocks of a minimum length.
#[derive(Clone, Copy, Debug, PartialEq, Eq, Structural)]
pub struct MinHoursCheapestParams {
    pub min_hours_per_day: u8,
    pub max_switches_per_day: Option<u8>,
    pub min_run_block: Option<u8>,
}

/// Parameters of `XHoursWithinWindows`: like `MinHoursCheapest`, but the
/// selection is confined to `allowed_windows`; when the windows cannot hold
/// `target_hours_per_day` hours the schedule is clamped and the shortfall
/// reported rather than failing.
#[derive(Debug)]
pub struct XHoursWithinWindowsParams {
    pub target_hours_per_day: u8,
    pub allowed_windows: Vec<TimeWindow>,
    pub max_switches_per_day: Option<u8>,
    pub min_run_block: Option<u8>,
}

/// A rule's tagged parameter document.
#[derive(Debug)]
pub enum RuleParams {
    MinHoursCheapest(MinHoursCheapestParams),
    XHoursWithinWindows(XHoursWithinWindowsParams),
}

/// Mathematical image of a parameter document: the variant tag, the hour
/// count, and the windows as a sequence (empty for `MinHoursCheapest`).
#[verifier::ext_equal]
pub struct RuleParamsView {
    pub rule_type: RuleType,
    pub hours_per_day: u8,
    pub windows: Seq<TimeWindow>,
    pub max_switches_per_day: Option<u8>,
    pub min_run_block: Option<u8>,
}

impl View for RuleParams {
    type V = RuleParamsView;

    open spec fn view(&self) -> RuleParamsView {
        match *self {
            RuleParams::MinHoursCheapest(q) => RuleParamsView {
                rule_type: RuleType::MinHoursCheapest,
                hours_per_day: q.min_hours_per_day,
                windows: Seq::empty(),
                max_switches_per_day: q.max_switches_per_day,
                min_run_block: q.min_run_block,
            },
            RuleParams::XHoursWithinWindows(q) => RuleParamsView {
                rule_type: RuleType::XHoursWithinWindows,
                hours_per_day: q.target_hours_per_day,
                windows: q.allowed_windows@,
                max_switches_per_day: q.max_switches_per_day,
                min_run_block: q.min_run_block,
            },
        }
    }
}

/// A persisted rule.
#[derive(Debug)]
pub struct Rule {
    pub id: u128,
    pub user_id: u128,
    pub device_id: u128,
    pub params: RuleParams,
    pub timezone: String,
    pub priority: i32,
    pub enabled: bool,
    pub created_at: i64,
    pub updated_at: i64,
}

/// Mathematical image of a persisted rule.
#[verifier::ext_equal]
pub struct RuleView {
    pub id: u128,
    pub user_id: u128,
    pub device_id: u128,
    pub params: RuleParamsView,
    pub timezone: Seq<char>,
    pub priority: i32,
    pub enabled: bool,
    pub created_at: i64,
    pub updated_at: i64,
}

impl View for Rule {
    type V = RuleView;

    open spec fn view(&self) -> RuleView {
        RuleView {
            id: self.id,
            user_id: self.user_id,
            device_id: self.device_id,
            params: self.params@,
            timezone: self.timezone@,
            priority: self.priority,
            enabled: self.enabled,
            created_at: self.created_at,
            updated_at: self.updated_at,
        }
    }
}

/// The fields supplied when creating a rule row.
#[derive(Debug)]
pub struct NewRule {
    pub id: u128,
    pub user_id: u128,
    pub device_id: u128,
    pub params: RuleParams,
    pub timezone: String,
    pub priority: i32,
    pub enabled: bool,
}

/// Request body for creating a rule.
#[derive(Debug)]
pub struct CreateRuleRequest {
    pub device_id: u128,
    pub params: RuleParams,
    pub timezone: String,
    pub priority: Option<i32>,
    pub enabled: Option<bool>,
}

/// Request body for updating a rule; `None` fields are left unchanged.
#[derive(Debug)]
pub struct UpdateRuleRequest {
    pub params: Option<RuleParams>,
    pub priority: Option<i32>,
    pub enabled: Option<bool>,
}

/// Response body describing a rule to a client.
#[derive(Debug)]
pub struct RuleResponse {
    pub id: u128,
    pub device_id: u128,
    pub rule_type: RuleType,
    pub params: RuleParams,
    pub active: bool,
    pub created_at: i64,
    pub updated_at: i64,
}

/// A single window is well-formed: non-empty and within one day.
pub open spec fn window_wf(w: TimeWindow) -> bool {
    w.start < w.end && w.end <= MINUTES_PER_DAY
}

/// A window list is well-formed: every window well-formed and no two
/// windows overlap.
pub open spec fn windows_wf(ws: Seq<TimeWindow>) -> bool {
    &&& forall|i: int| 0 <= i < ws.len() ==> window_wf(#[trigger] ws[i])
    &&& forall|i: int, j: int|
        0 <= i < ws.len() && 0 <= j < ws.len() && i != j ==> (#[trigger] ws[i]).end <= (
        #[trigger] ws[j]).start || ws[j].end <= ws[i].start
}

/// Schema validity of the optional constraint pair shared by both variants:
/// a minimum run block is between 1 hour and one day; a switch cap must
/// leave the target satisfiable — room for one ON block (two transitions),
/// unless the hour target is zero and the empty schedule satisfies any cap.
pub open spec fn constraints_valid(hours: u8, max_switches: Option<u8>, min_run: Option<u8>) -> bool {
    &&& (max_switches matches Some(m) ==> m >= 2 || hours == 0)
    &&& (min_run matches Some(r) ==> 1 <= r <= MAX_DAY_HOURS)
}

/// Schema validity of a parameter document, checked before a rule is
/// persisted or evaluated. Bounds against the actual day length are
/// checked again at evaluation time, when the day's prices are known.
pub open spec fn params_valid(p: RuleParams) -> bool {
    match p {
        RuleParams::MinHoursCheapest(q) => q.min_hours_per_day <= MAX_DAY_HOURS
            && constraints_valid(q.min_hours_per_day, q.max_switches_per_day, q.min_run_block),
        RuleParams::XHoursWithinWindows(q) => q.target_hours_per_day <= MAX_DAY_HOURS
            && constraints_valid(
            q.target_hours_per_day,
            q.max_switches_per_day,
            q.min_run_block,
        ) && windows_wf(q.allowed_windows@),
    }
}

/// Checks that every window is well-formed and that no two overlap.
pub fn check_windows(ws: &Vec<TimeWindow>) -> (r: bool)
    ensures
        r == windows_wf(ws@),
{
    let mut i: usize = 0;
    while i < ws.len()
        invariant
            i <= ws.len(),
            forall|k: int| 0 <= k < i ==> window_wf(#[trigger] ws@[k]),
            forall|k: int, j: int|
                0 <= k < i && 0 <= j < i && k != j ==> (#[trigger] ws@[k]).end <= (
                #[trigger] ws@[j]).start || ws@[j].end <= ws@[k].start,
        decreases ws.len() - i,
    {
        let w = ws[i];
        if !(w.start < w.end && w.end <= MINUTES_PER_DAY) {
            return false;
        }
        let mut j: usize = 0;
        while j < i
            invariant
                j <= i < ws.len(),
                w == ws@[i as int],
                window_wf(ws@[i as int]),
                forall|k: int|
                    0 <= k < j ==> (#[trigger] ws@[k]).end <= ws@[i as int].start
                        || ws@[i as int].end <= ws@[k].start,
            decreases i - j,
        {
            let prev = ws[j];
            if !(prev.end <= w.start || w.end <= prev.start) {
                return false;
            }
            j = j + 1;
        }
        i = i + 1;
    }
    true
}

/// Checks the shared optional constraint pair against the schema.
fn check_constraints(hours: u8, max_switches: &Option<u8>, min_run: &Option<u8>) -> (r: bool)
    ensures
        r == constraints_valid(hours, *max_switches, *min_run),
{
    let sw_ok = match max_switches {
        Option::Some(m) => *m >= 2 || hours == 0,
        Option::None => true,
    };
    let run_ok = match min_run {
        Option::Some(b) => 1 <= *b && *b <= MAX_DAY_HOURS,
        Option::None => true,
    };
    sw_ok && run_ok
}

/// Checks a parameter document against its variant's schema.
pub fn validate_params(p: &RuleParams) -> (r: bool)
    ensures
        r == params_valid(*p),
{
    match p {
        RuleParams::MinHoursCheapest(q) => {
            q.min_hours_per_day <= MAX_DAY_HOURS && check_constraints(
                q.min_hours_per_day,
                &q.max_switches_per_day,
                &q.min_run_block,
            )
        },
        RuleParams::XHoursWithinWindows(q) => {
            q.target_hours_per_day <= MAX_DAY_HOURS && check_constraints(
                q.target_hours_per_day,
                &q.max_switches_per_day,
                &q.min_run_block,
            ) && check_windows(&q.allowed_windows)
        },
    }
}

/// Copies a window list, preserving the sequence exactly.
pub fn clone_windows(ws: &Vec<TimeWindow>) -> (r: Vec<TimeWindow>)
    ensures
        r@ == ws@,
{
    let mut out: Vec<TimeWindow> = Vec::new();
    let mut i: usize = 0;
    while i < ws.len()
        invariant
            i <= ws.len(),
            out@ == ws@.subrange(0, i as int),
        decreases ws.len() - i,
    {
        out.push(ws[i]);
        i = i + 1;
    }
    assert(out@ =~= ws@);
    out
}

/// Copies a parameter document, preserving its mathematical image.
pub fn clone_params(p: &RuleParams) -> (r: RuleParams)
    ensures
        r@ == p@,
        params_valid(r) == params_valid(*p),
{
    match p {
        RuleParams::MinHoursCheapest(q) => RuleParams::MinHoursCheapest(*q),
        RuleParams::XHoursWithinWindows(q) => {
            let r = RuleParams::XHoursWithinWindows(
                XHoursWithinWindowsParams {
                    target_hours_per_day: q.target_hours_per_day,
                    allowed_windows: clone_windows(&q.allowed_windows),
                    max_switches_per_day: q.max_switches_per_day,
                    min_run_block: q.min_run_block,
                },
            );
            assert(r@ =~= p@);
            r
        },
    }
}

/// The wire code of each rule variant.
pub open spec fn spec_rule_type_code(t: RuleType) -> Seq<char> {
    match t {
        RuleType::MinHoursCheapest => "MIN_HOURS_CHEAPEST"@,
        RuleType::XHoursWithinWindows => "X_HOURS_WITHIN_WINDOWS"@,
    }
}

impl RuleType {
    /// The wire code of this variant.
    pub fn code(&self) -> (r: &'static str)
        ensures
            r@ == spec_rule_type_code(*self),
    {
        match self {
            RuleType::MinHoursCheapest => "MIN_HOURS_CHEAPEST",
            RuleType::XHoursWithinWindows => "X_HOURS_WITHIN_WINDOWS",
        }
    }
}

impl Rule {
    /// The variant tag of this rule's parameters.
    pub fn get_rule_type(&self) -> (r: RuleType)
        ensures
            r == self@.params.rule_type,
    {
        match &self.params {
            RuleParams::MinHoursCheapest(_) => RuleType::MinHoursCheapest,
            RuleParams::XHoursWithinWindows(_) => RuleType::XHoursWithinWindows,
        }
    }

    /// Whether this rule is currently enabled.
    pub fn is_active(&self) -> (r: bool)
        ensures
            r == self.enabled,
    {
        self.enabled
    }

    /// The response body describing this rule.
    pub fn to_response(&self) -> (r: RuleResponse)
        ensures
            r.id == self.id,
            r.device_id == self.device_id,
            r.rule_type == self@.params.rule_type,
            r.params@ == self.params@,
            r.active == self.enabled,
            r.created_at == self.created_at,
            r.updated_at == self.updated_at,
    {
        RuleResponse {
            id: self.id,
            device_id: self.device_id,
            rule_type: self.get_rule_type(),
            params: clone_params(&self.params),
            active: self.enabled,
            created_at: self.created_at,
            updated_at: self.updated_at,
        }
    }
}

impl Clone for Rule {
    fn clone(&self) -> (res: Self)
        ensures
            res@ == self@,
            params_valid(res.params) == params_valid(self.params),
    {
        let res = Rule {
            id: self.id,
            user_id: self.user_id,
            device_id: self.device_id,
            params: clone_params(&self.params),
            timezone: self.timezone.clone(),
            priority: self.priority,
            enabled: self.enabled,
            created_at: self.created_at,
            updated_at: self.updated_at,
        };
        assert(res@ =~= self@);
        res
    }
}

/// Whether a rule with id `id` exists.
pub open spec fn spec_has_rule(rs: Seq<Rule>, id: u128) -> bool {
    exists|i: int| 0 <= i < rs.len() && (#[trigger] rs[i]).id == id
}

/// Whether `user` owns the rule with id `id`.
pub open spec fn spec_owns_rule(rs: Seq<Rule>, user: u128, id: u128) -> bool {
    exists|i: int|
        0 <= i < rs.len() && (#[trigger] rs[i]).id == id && rs[i].user_id == user
}

/// The rule row a create request produces: priority defaults to 1 and
/// enabled to true when the request leaves them out.
pub open spec fn made_rule(id: u128, user: u128, req: CreateRuleRequest, now: i64) -> Rule {
    Rule {
        id,
        user_id: user,
        device_id: req.device_id,
        params: req.params,
        timezone: req.timezone,
        priority: match req.priority {
            Some(p) => p,
            None => 1,
        },
        enabled: match req.enabled {
            Some(b) => b,
            None => true,
        },
        created_at: now,
        updated_at: now,
    }
}

/// The rule row an update request turns `old_r` into: present fields
/// replace, absent fields persist, and the update timestamp advances.
pub open spec fn updated_rule(old_r: Rule, req: UpdateRuleRequest, now: i64) -> Rule {
    Rule {
        params: match req.params {
            Some(p) => p,
            None => old_r.params,
        },
        priority: match req.priority {
            Some(p) => p,
            None => old_r.priority,
        },
        enabled: match req.enabled {
            Some(b) => b,
            None => old_r.enabled,
        },
        updated_at: now,
        ..old_r
    }
}

/// Rule `a` (at table index `ia`) takes precedence over rule `b` (at
/// `ib`): lower priority value first, then earlier creation, then table
/// order.
pub open spec fn rule_precedes(a: Rule, ia: int, b: Rule, ib: int) -> bool {
    ||| a.priority < b.priority
    ||| (a.priority == b.priority && a.created_at < b.created_at)
    ||| (a.priority == b.priority && a.created_at == b.created_at && ia <= ib)
}

impl crate::store::Store {
    /// The index of the rule with id `id`, if any.
    pub(crate) fn find_rule_index(&self, id: u128) -> (r: Option<usize>)
        ensures
            match r {
                Some(i) => i < self@.rules.len() && self@.rules[i as int].id == id,
                None => !spec_has_rule(self@.rules, id),
            },
    {
        let mut i: usize = 0;
        while i < self.rules.len()
            invariant
                i <= self.rules.len(),
                forall|j: int| 0 <= j < i ==> (#[trigger] self@.rules[j]).id != id,
            decreases self.rules.len() - i,
        {
            if self.rules[i].id == id {
                return Some(i);
            }
            i = i + 1;
        }
        None
    }

    /// Creates a rule for an owned device at time `now`, under a fresh id,
    /// after validating the parameters against their variant's schema.
    /// `NotFound` when the device is not the user's (other users' devices
    /// are never revealed); `InvalidRuleParameters` when the parameter
    /// document fails its schema; `StorageConflict` in the (random,
    /// vanishingly unlikely) event that the drawn id is already taken.
    pub fn create_rule(&mut self, user: u128, req: CreateRuleRequest, now: i64) -> (r: Result<
        Rule,
        CoreError,
    >)
        requires
            old(self).wf(),
        ensures
            final(self).wf(),
            crate::store::unchanged_except_rules(old(self)@, final(self)@),
            match r {
                Ok(rl) => old(self).spec_owns_device(user, req.device_id) && params_valid(
                    req.params,
                ) && !spec_has_rule(old(self)@.rules, rl.id) && final(self)@.rules == old(
                    self,
                )@.rules.push(made_rule(rl.id, user, req, now)) && rl@ == made_rule(
                    rl.id,
                    user,
                    req,
                    now,
                )@,
                Err(e) => final(self)@ == old(self)@ && ((e == CoreError::NotFound && !old(
                    self,
                ).spec_owns_device(user, req.device_id)) || (e == CoreError::InvalidRuleParameters
                    && old(self).spec_owns_device(user, req.device_id) && !params_valid(
                    req.params,
                )) || (e == CoreError::StorageConflict && old(self).spec_owns_device(
                    user,
                    req.device_id,
                ) && params_valid(req.params))),
            },
    {
        if !self.verify_device_ownership(user, req.device_id) {
            return Err(CoreError::NotFound);
        }
        if !validate_params(&req.params) {
            return Err(CoreError::InvalidRuleParameters);
        }
        let id = crate::platform::fresh_id();
        if let Some(_i) = self.find_rule_index(id) {
            return Err(CoreError::StorageConflict);
        }
        let row = Rule {
            id,
            user_id: user,
            device_id: req.device_id,
            params: req.params,
            timezone: req.timezone,
            priority: match req.priority {
                Some(p) => p,
                None => 1,
            },
            enabled: match req.enabled {
                Some(b) => b,
                None => true,
            },
            created_at: now,
            updated_at: now,
        };
        let ret = row.clone();
        self.rules.push(row);
        proof {
            assert(crate::store::rules_wf(self@.rules));
        }
        Ok(ret)
    }

    /// The rule with id `rule_id`, if `user` owns it; `NotFound` otherwise.
    pub fn get_rule(&self, user: u128, rule_id: u128) -> (r: Result<Rule, CoreError>)
        requires
            self.wf(),
        ensures
            match r {
                Ok(rl) => exists|i: int|
                    0 <= i < self@.rules.len() && (#[trigger] self@.rules[i]).id == rule_id
                        && self@.rules[i].user_id == user && rl@ == self@.rules[i]@,
                Err(e) => e == CoreError::NotFound && !spec_owns_rule(self@.rules, user, rule_id),
            },
    {
        match self.find_rule_index(rule_id) {
            None => Err(CoreError::NotFound),
            Some(i) => {
                if self.rules[i].user_id == user {
                    let rl = self.rules[i].clone();
                    Ok(rl)
                } else {
                    proof {
                        assert forall|j: int|
                            0 <= j < self@.rules.len() implies !((#[trigger] self@.rules[j]).id
                            == rule_id && self@.rules[j].user_id == user) by {
                            if self@.rules[j].id == rule_id {
                                assert(j == i as int);
                            }
                        }
                    }
                    Err(CoreError::NotFound)
                }
            },
        }
    }

    /// All rules of `user`, in insertion order.
    pub fn list_rules(&self, user: u128) -> (r: Vec<Rule>)
        ensures
            r@.map_values(|x: Rule| x@) == self@.rules.filter(|x: Rule| x.user_id == user)
                .map_values(|x: Rule| x@),
    {
        let mut out: Vec<Rule> = Vec::new();
        let mut i: usize = 0;
        while i < self.rules.len()
            invariant
                i <= self.rules.len(),
                out@.map_values(|x: Rule| x@) == self@.rules.subrange(0, i as int).filter(
                    |x: Rule| x.user_id == user,
                ).map_values(|x: Rule| x@),
            decreases self.rules.len() - i,
        {
            let ghost prefix = self@.rules.subrange(0, i as int);
            let ghost next_prefix = self@.rules.subrange(0, i + 1 as int);
            proof {
                assert(next_prefix.drop_last() =~= prefix);
                assert(next_prefix.last() == self@.rules[i as int]);
                reveal_with_fuel(Seq::filter, 2);
            }
            if self.rules[i].user_id == user {
                let rl = self.rules[i].clone();
                out.push(rl);
                proof {
                    let f = |x: Rule| x@;
                    let pred = |x: Rule| x.user_id == user;
                    assert(out@.map_values(f) =~= prefix.filter(pred).map_values(f).push(
                        self@.rules[i as int]@,
                    ));
                    assert(next_prefix.filter(pred) =~= prefix.filter(pred).push(
                        self@.rules[i as int],
                    ));
                    assert(next_prefix.filter(pred).map_values(f) =~= prefix.filter(
                        pred,
                    ).map_values(f).push(self@.rules[i as int]@));
                }
            } else {
                proof {
                    assert(next_prefix.filter(|x: Rule| x.user_id == user) =~= prefix.filter(
                        |x: Rule| x.user_id == user,
                    ));
                }
            }
            i = i + 1;
        }
        proof {
            assert(self@.rules.subrange(0, self@.rules.len() as int) =~= self@.rules);
        }
        out
    }

    /// Updates an owned rule at time `now`: present request fields replace
    /// the stored ones, absent fields persist, and new parameters must
    /// validate against their variant's schema before anything changes.
    pub fn update_rule(&mut self, user: u128, rule_id: u128, req: UpdateRuleRequest, now: i64) -> (r:
        Result<Rule, CoreError>)
        requires
            old(self).wf(),
        ensures
            final(self).wf(),
            crate::store::unchanged_except_rules(old(self)@, final(self)@),
            match r {
                Ok(rl) => exists|i: int|
                    0 <= i < old(self)@.rules.len() && (#[trigger] old(
                        self,
                    )@.rules[i]).id == rule_id && old(self)@.rules[i].user_id == user && final(self)@.rules == old(self)@.rules.update(
                        i,
                        updated_rule(old(self)@.rules[i], req, now),
                    ) && rl@ == updated_rule(old(self)@.rules[i], req, now)@,
                Err(e) => final(self)@ == old(self)@ && ((e == CoreError::NotFound
                    && !spec_owns_rule(old(self)@.rules, user, rule_id)) || (e
                    == CoreError::InvalidRuleParameters && spec_owns_rule(
                    old(self)@.rules,
                    user,
                    rule_id,
                ) && (req.params matches Some(p) && !params_valid(p)))),
            },
    {
        let i = match self.find_rule_index(rule_id) {
            None => {
                return Err(CoreError::NotFound);
            },
            Some(i) => i,
        };
        if self.rules[i].user_id != user {
            proof {
                assert forall|j: int|
                    0 <= j < self@.rules.len() implies !((#[trigger] self@.rules[j]).id == rule_id
                    && self@.rules[j].user_id == user) by {
                    if self@.rules[j].id == rule_id {
                        assert(j == i as int);
                    }
                }
            }
            return Err(CoreError::NotFound);
        }
        match &req.params {
            Some(p) => {
                if !validate_params(p) {
                    return Err(CoreError::InvalidRuleParameters);
                }
            },
            None => {},
        }
        let ghost pre = self@.rules;
        let mut row = self.rules.remove(i);
        match req.params {
            Some(p) => {
                row.params = p;
            },
            None => {},
        }
        match req.priority {
            Some(p) => {
                row.priority = p;
            },
            None => {},
        }
        match req.enabled {
            Some(b) => {
                row.enabled = b;
            },
            None => {},
        }
        row.updated_at = now;
        let ret = row.clone();
        self.rules.insert(i, row);
        proof {
            assert(self@.rules =~= pre.update(i as int, updated_rule(pre[i as int], req, now)));
            assert(crate::store::rules_wf(self@.rules));
        }
        Ok(ret)
    }

    /// Deletes an owned rule; `NotFound` when no rule of the user carries
    /// the id, leaking nothing about other users' rules.
    pub fn delete_rule(&mut self, user: u128, rule_id: u128) -> (r: Result<(), CoreError>)
        requires
            old(self).wf(),
        ensures
            final(self).wf(),
            crate::store::unchanged_except_rules(old(self)@, final(self)@),
            match r {
                Ok(()) => exists|i: int|
                    0 <= i < old(self)@.rules.len() && (#[trigger] old(
                        self,
                    )@.rules[i]).id == rule_id && old(self)@.rules[i].user_id == user && final(self)@.rules == old(self)@.rules.remove(i),
                Err(e) => e == CoreError::NotFound && final(self)@ == old(self)@ && !spec_owns_rule(
                    old(self)@.rules,
                    user,
                    rule_id,
                ),
            },
    {
        let i = match self.find_rule_index(rule_id) {
            None => {
                return Err(CoreError::NotFound);
            },
            Some(i) => i,
        };
        if self.rules[i].user_id != user {
            proof {
                assert forall|j: int|
                    0 <= j < self@.rules.len() implies !((#[trigger] self@.rules[j]).id == rule_id
                    && self@.rules[j].user_id == user) by {
                    if self@.rules[j].id == rule_id {
                        assert(j == i as int);
                    }
                }
            }
            return Err(CoreError::NotFound);
        }
        let ghost pre = self@.rules;
        let _removed = self.rules.remove(i);
        proof {
            assert(crate::store::rules_wf(self@.rules)) by {
                assert(forall|k: int|
                    0 <= k < self@.rules.len() ==> #[trigger] self@.rules[k] == (if k < i {
                        pre[k]
                    } else {
                        pre[k + 1]
                    }));
            }
        }
        Ok(())
    }

    /// The rule whose output applies to `device_id` today: among the
    /// enabled rules of the device, the one with the lowest priority value,
    /// ties broken by earliest creation, then table order — so exactly one
    /// rule's schedule applies per device per day.
    pub fn select_active_rule(&self, device_id: u128) -> (r: Option<Rule>)
        ensures
            match r {
                Some(rl) => exists|i: int|
                    0 <= i < self@.rules.len() && (#[trigger] self@.rules[i]).device_id == device_id
                        && self@.rules[i].enabled && rl@ == self@.rules[i]@ && forall|j: int|
                        0 <= j < self@.rules.len() && (#[trigger] self@.rules[j]).device_id
                            == device_id && self@.rules[j].enabled ==> rule_precedes(
                            self@.rules[i],
                            i,
                            self@.rules[j],
                            j,
                        ),
                None => forall|j: int|
                    0 <= j < self@.rules.len() ==> !((#[trigger] self@.rules[j]).device_id
                        == device_id && self@.rules[j].enabled),
            },
    {
        let mut best: Option<usize> = None;
        let mut i: usize = 0;
        while i < self.rules.len()
            invariant
                i <= self.rules.len(),
                match best {
                    Some(k) => k < i && self@.rules[k as int].device_id == device_id
                        && self@.rules[k as int].enabled && forall|j: int|
                        0 <= j < i && (#[trigger] self@.rules[j]).device_id == device_id
                            && self@.rules[j].enabled ==> rule_precedes(
                            self@.rules[k as int],
                            k as int,
                            self@.rules[j],
                            j,
                        ),
                    None => forall|j: int|
                        0 <= j < i ==> !((#[trigger] self@.rules[j]).device_id == device_id
                            && self@.rules[j].enabled),
                },
            decreases self.rules.len() - i,
        {
            if self.rules[i].device_id == device_id && self.rules[i].enabled {
                match best {
                    None => {
                        best = Some(i);
                    },
                    Some(k) => {
                        let cur = &self.rules[k];
                        let cand = &self.rules[i];
                        if cand.priority < cur.priority || (cand.priority == cur.priority
                            && cand.created_at < cur.created_at) {
                            best = Some(i);
                        }
                    },
                }
            }
            i = i + 1;
        }
        match best {
            Some(k) => Some(self.rules[k].clone()),
            None => None,
        }
    }
}

} // verus!
