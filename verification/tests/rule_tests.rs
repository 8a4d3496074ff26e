use smartplan::device::DeviceSync;
use smartplan::rule::validate_params;
use smartplan::rule::CreateRuleRequest;
use smartplan::rule::MinHoursCheapestParams;
use smartplan::rule::RuleParams;
use smartplan::rule::RuleType;
use smartplan::rule::TimeWindow;
use smartplan::rule::UpdateRuleRequest;
use smartplan::rule::XHoursWithinWindowsParams;
use smartplan::store::Store;
use smartplan::CoreError;

const USER: u128 = 42;

fn store_with_device() -> (Store, u128) {
    let mut store = Store::new();
    let dev = store
        .upsert_device(
            USER,
            DeviceSync {
                google_device_id: "d-1".to_string(),
                name: "boiler".to_string(),
                device_type: "plug".to_string(),
                room: None,
                structure_id: None,
                capabilities: "{}".to_string(),
                state: "{}".to_string(),
            },
            50,
        )
        .unwrap();
    (store, dev.id)
}

fn min_hours_params(n: u8) -> RuleParams {
    RuleParams::MinHoursCheapest(MinHoursCheapestParams {
        min_hours_per_day: n,
        max_switches_per_day: None,
        min_run_block: None,
    })
}

fn create_req(device_id: u128, params: RuleParams) -> CreateRuleRequest {
    CreateRuleRequest {
        device_id,
        params,
        timezone: "Europe/Madrid".to_string(),
        priority: None,
        enabled: None,
    }
}

#[test]
fn create_get_update_delete_roundtrip() {
    let (mut store, device_id) = store_with_device();
    let rule = store.create_rule(USER, create_req(device_id, min_hours_params(3)), 100).unwrap();
    assert_eq!(rule.priority, 1);
    assert!(rule.enabled);
    assert_eq!(rule.get_rule_type(), RuleType::MinHoursCheapest);
    assert!(rule.is_active());

    let fetched = store.get_rule(USER, rule.id).unwrap();
    assert_eq!(fetched.id, rule.id);
    assert_eq!(fetched.timezone, "Europe/Madrid");

    let updated = store
        .update_rule(
            USER,
            rule.id,
            UpdateRuleRequest {
                params: Some(min_hours_params(5)),
                priority: Some(2),
                enabled: Some(false),
            },
            200,
        )
        .unwrap();
    assert_eq!(updated.priority, 2);
    assert!(!updated.enabled);
    assert_eq!(updated.created_at, 100);
    assert_eq!(updated.updated_at, 200);
    match &store.rules[0].params {
        RuleParams::MinHoursCheapest(q) => assert_eq!(q.min_hours_per_day, 5),
        _ => panic!("variant changed unexpectedly"),
    }

    store.delete_rule(USER, rule.id).unwrap();
    assert_eq!(store.rules.len(), 0);
    assert_eq!(store.get_rule(USER, rule.id).unwrap_err(), CoreError::NotFound);
}

#[test]
fn partial_update_keeps_absent_fields() {
    let (mut store, device_id) = store_with_device();
    let rule = store.create_rule(USER, create_req(device_id, min_hours_params(3)), 100).unwrap();
    let updated = store
        .update_rule(
            USER,
            rule.id,
            UpdateRuleRequest { params: None, priority: None, enabled: Some(false) },
            150,
        )
        .unwrap();
    assert_eq!(updated.priority, 1);
    assert!(!updated.enabled);
    match &updated.params {
        RuleParams::MinHoursCheapest(q) => assert_eq!(q.min_hours_per_day, 3),
        _ => panic!("variant changed unexpectedly"),
    }
}

#[test]
fn create_rule_for_foreign_device_is_not_found() {
    let (mut store, device_id) = store_with_device();
    let r = store.create_rule(7, create_req(device_id, min_hours_params(3)), 100);
    assert_eq!(r.unwrap_err(), CoreError::NotFound);
}

#[test]
fn invalid_params_are_rejected_before_any_change() {
    let (mut store, device_id) = store_with_device();
    let bad = RuleParams::MinHoursCheapest(MinHoursCheapestParams {
        min_hours_per_day: 26,
        max_switches_per_day: None,
        min_run_block: None,
    });
    let r = store.create_rule(USER, create_req(device_id, bad), 100);
    assert_eq!(r.unwrap_err(), CoreError::InvalidRuleParameters);
    assert_eq!(store.rules.len(), 0);

    let rule = store.create_rule(USER, create_req(device_id, min_hours_params(3)), 100).unwrap();
    let bad_update = UpdateRuleRequest {
        params: Some(RuleParams::MinHoursCheapest(MinHoursCheapestParams {
            min_hours_per_day: 3,
            max_switches_per_day: Some(1),
            min_run_block: None,
        })),
        priority: None,
        enabled: None,
    };
    let r2 = store.update_rule(USER, rule.id, bad_update, 150);
    assert_eq!(r2.unwrap_err(), CoreError::InvalidRuleParameters);
    assert_eq!(store.rules[0].updated_at, 100);
}

#[test]
fn rules_are_scoped_by_user() {
    let (mut store, device_id) = store_with_device();
    let rule = store.create_rule(USER, create_req(device_id, min_hours_params(3)), 100).unwrap();
    assert_eq!(store.get_rule(7, rule.id).unwrap_err(), CoreError::NotFound);
    assert_eq!(store.delete_rule(7, rule.id).unwrap_err(), CoreError::NotFound);
    let upd = UpdateRuleRequest { params: None, priority: None, enabled: Some(false) };
    assert_eq!(store.update_rule(7, rule.id, upd, 150).unwrap_err(), CoreError::NotFound);
    assert_eq!(store.rules.len(), 1);
    assert!(store.rules[0].enabled);
}

#[test]
fn list_rules_filters_by_user() {
    let (mut store, device_id) = store_with_device();
    store.create_rule(USER, create_req(device_id, min_hours_params(3)), 100).unwrap();
    store.create_rule(USER, create_req(device_id, min_hours_params(4)), 101).unwrap();
    let mine = store.list_rules(USER);
    assert_eq!(mine.len(), 2);
    let theirs = store.list_rules(7);
    assert_eq!(theirs.len(), 0);
}

#[test]
fn lowest_priority_value_wins_then_creation_order() {
    let (mut store, device_id) = store_with_device();
    let mut low = create_req(device_id, min_hours_params(3));
    low.priority = Some(5);
    let mut high = create_req(device_id, min_hours_params(4));
    high.priority = Some(1);
    let mut tie = create_req(device_id, min_hours_params(5));
    tie.priority = Some(1);
    store.create_rule(USER, low, 100).unwrap();
    let winner = store.create_rule(USER, high, 101).unwrap();
    store.create_rule(USER, tie, 102).unwrap();
    let active = store.select_active_rule(device_id).unwrap();
    assert_eq!(active.id, winner.id);
}

#[test]
fn disabled_rules_never_apply() {
    let (mut store, device_id) = store_with_device();
    let mut req = create_req(device_id, min_hours_params(3));
    req.enabled = Some(false);
    store.create_rule(USER, req, 100).unwrap();
    assert!(store.select_active_rule(device_id).is_none());
}

#[test]
fn window_schema_is_validated() {
    let ok = RuleParams::XHoursWithinWindows(XHoursWithinWindowsParams {
        target_hours_per_day: 2,
        allowed_windows: vec![
            TimeWindow { start: 0, end: 120 },
            TimeWindow { start: 300, end: 420 },
        ],
        max_switches_per_day: None,
        min_run_block: None,
    });
    assert!(validate_params(&ok));
    let empty_window = RuleParams::XHoursWithinWindows(XHoursWithinWindowsParams {
        target_hours_per_day: 2,
        allowed_windows: vec![TimeWindow { start: 120, end: 120 }],
        max_switches_per_day: None,
        min_run_block: None,
    });
    assert!(!validate_params(&empty_window));
    let beyond_day = RuleParams::XHoursWithinWindows(XHoursWithinWindowsParams {
        target_hours_per_day: 2,
        allowed_windows: vec![TimeWindow { start: 1400, end: 1441 }],
        max_switches_per_day: None,
        min_run_block: None,
    });
    assert!(!validate_params(&beyond_day));
}

#[test]
fn wire_codes_match_the_protocol() {
    assert_eq!(RuleType::MinHoursCheapest.code(), "MIN_HOURS_CHEAPEST");
    assert_eq!(RuleType::XHoursWithinWindows.code(), "X_HOURS_WITHIN_WINDOWS");
    assert_eq!(smartplan::command::CommandStatus::Queued.code(), "queued");
    assert_eq!(smartplan::command::CommandStatus::Sent.code(), "sent");
    assert_eq!(smartplan::command::CommandStatus::Acked.code(), "acked");
    assert_eq!(smartplan::command::CommandStatus::Failed.code(), "failed");
    assert_eq!(CoreError::InvalidTransition.message(), "invalid state transition");
}

#[test]
fn a_zero_hour_target_accepts_any_switch_cap() {
    let tight_cap = RuleParams::MinHoursCheapest(MinHoursCheapestParams {
        min_hours_per_day: 0,
        max_switches_per_day: Some(0),
        min_run_block: None,
    });
    assert!(validate_params(&tight_cap));
    let prices: Vec<i64> = vec![1; 24];
    let out = smartplan::optimizer::compute(&prices, &tight_cap).unwrap();
    assert_eq!(out.on_hours, 0);
    assert_eq!(out.slots.len(), 0);
}
