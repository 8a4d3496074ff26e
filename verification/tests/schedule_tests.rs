use smartplan::auth::bearer_token;
use smartplan::auth::AuthUser;
use smartplan::auth::RequireAuth;
use smartplan::device::DeviceSync;
use smartplan::rule::CreateRuleRequest;
use smartplan::rule::MinHoursCheapestParams;
use smartplan::rule::RuleParams;
use smartplan::schedule::DayPrice;
use smartplan::schedule::ScheduleStatus;
use smartplan::store::Store;
use smartplan::CoreError;

const USER: u128 = 42;
const DATE: i32 = 20_000;

fn store_with_rule() -> (Store, u128, u128) {
    let mut store = Store::new();
    let dev = store
        .upsert_device(
            USER,
            DeviceSync {
                google_device_id: "d-1".to_string(),
                name: "boiler".to_string(),
                device_type: "plug".to_string(),
                room: None,
                structure_id: None,
                capabilities: "{}".to_string(),
                state: "{}".to_string(),
            },
            50,
        )
        .unwrap();
    let rule = store
        .create_rule(
            USER,
            CreateRuleRequest {
                device_id: dev.id,
                params: RuleParams::MinHoursCheapest(MinHoursCheapestParams {
                    min_hours_per_day: 3,
                    max_switches_per_day: None,
                    min_run_block: None,
                }),
                timezone: "Europe/Madrid".to_string(),
                priority: None,
                enabled: None,
            },
            60,
        )
        .unwrap();
    (store, dev.id, rule.id)
}

fn put_prices(store: &mut Store, head: &[i64]) {
    let mut prices: Vec<i64> = head.to_vec();
    let mut filler: i64 = 100;
    while prices.len() < 24 {
        prices.push(filler);
        filler += 1;
    }
    store.put_day_price(DayPrice {
        id: 1,
        date: DATE,
        timezone: "Europe/Madrid".to_string(),
        prices,
        source: "market".to_string(),
        created_at: 70,
    });
}

#[test]
fn evaluation_persists_a_pending_schedule() {
    let (mut store, device_id, rule_id) = store_with_rule();
    put_prices(&mut store, &[1, 5, 2, 8, 3]);
    let resp = store.evaluate_schedule(USER, device_id, rule_id, DATE, 80).unwrap();
    assert_eq!(resp.total_cost, 6);
    assert_eq!(resp.total_on_minutes, 180);
    assert_eq!(resp.shortfall_hours, 0);
    assert_eq!(store.schedules.len(), 1);
    let row = &store.schedules[0];
    assert!(row.is_pending());
    assert!(!row.is_active());
    assert_eq!(row.status, ScheduleStatus::Pending);
    assert_eq!(row.total_cost, 6);
    assert_eq!(row.get_slots(), resp.slots);
    assert_eq!(row.date, DATE);
}

#[test]
fn reevaluation_overwrites_the_same_row() {
    let (mut store, device_id, rule_id) = store_with_rule();
    put_prices(&mut store, &[1, 5, 2, 8, 3]);
    let first = store.evaluate_schedule(USER, device_id, rule_id, DATE, 80).unwrap();
    let second = store.evaluate_schedule(USER, device_id, rule_id, DATE, 90).unwrap();
    assert_eq!(store.schedules.len(), 1);
    assert_eq!(first.slots, second.slots);
    assert_eq!(first.total_cost, second.total_cost);
    assert_eq!(store.schedules[0].updated_at, 90);
    assert_eq!(store.schedules[0].created_at, 80);
}

#[test]
fn evaluation_without_a_price_table_is_not_found() {
    let (mut store, device_id, rule_id) = store_with_rule();
    let r = store.evaluate_schedule(USER, device_id, rule_id, DATE, 80);
    assert_eq!(r.unwrap_err(), CoreError::NotFound);
    assert_eq!(store.schedules.len(), 0);
}

#[test]
fn evaluation_is_scoped_by_user_and_device() {
    let (mut store, device_id, rule_id) = store_with_rule();
    put_prices(&mut store, &[1, 5, 2]);
    assert_eq!(
        store.evaluate_schedule(7, device_id, rule_id, DATE, 80).unwrap_err(),
        CoreError::NotFound
    );
    assert_eq!(
        store.evaluate_schedule(USER, device_id, 999, DATE, 80).unwrap_err(),
        CoreError::NotFound
    );
}

#[test]
fn rebuild_recomputes_enabled_rules_only() {
    let (mut store, device_id, _rule_id) = store_with_rule();
    put_prices(&mut store, &[1, 5, 2, 8, 3]);
    store.create_rule(USER, extra_rule_req(device_id, 2, false), 61).unwrap();
    store.create_rule(USER, extra_rule_req(device_id, 3, true), 62).unwrap();
    let n = store.rebuild_schedules(USER, DATE, 90);
    assert_eq!(n, 2); // the first rule and the re-enabled copy
    assert_eq!(store.schedules.len(), 2);
}

#[test]
fn schedule_queries_filter_by_user_and_date() {
    let (mut store, device_id, rule_id) = store_with_rule();
    put_prices(&mut store, &[1, 5, 2]);
    store.evaluate_schedule(USER, device_id, rule_id, DATE, 80).unwrap();
    assert_eq!(store.list_schedules(USER).len(), 1);
    assert_eq!(store.list_schedules(7).len(), 0);
    assert_eq!(store.get_today_schedules(USER, DATE).len(), 1);
    assert_eq!(store.get_today_schedules(USER, DATE + 1).len(), 0);
}

#[test]
fn day_price_table_is_upserted_by_date_and_timezone() {
    let mut store = Store::new();
    put_prices(&mut store, &[1, 2, 3]);
    put_prices(&mut store, &[4, 5, 6]);
    assert_eq!(store.day_prices.len(), 1);
    let tz = "Europe/Madrid".to_string();
    let row = store.get_day_price(DATE, &tz).unwrap();
    assert_eq!(row.prices[0], 4);
    assert!(store.get_day_price(DATE + 1, &tz).is_none());
}

#[test]
fn bearer_tokens_are_cut_from_the_header() {
    assert_eq!(bearer_token("Bearer abc.def"), Some("abc.def"));
    assert_eq!(bearer_token("Bearer "), Some(""));
    assert_eq!(bearer_token("Basic abc"), None);
    assert_eq!(bearer_token("Bear"), None);
    assert_eq!(bearer_token(""), None);
}

#[test]
fn authentication_gate_admits_only_identified_requests() {
    assert!(RequireAuth::from_request(Some(USER)).is_ok());
    assert_eq!(RequireAuth::from_request(None).unwrap_err(), CoreError::Unauthorized);
    let who = AuthUser::from_request(Some(USER)).unwrap();
    assert_eq!(who.0, USER);
    assert!(AuthUser::from_request(None).is_err());
}

fn extra_rule_req(device_id: u128, priority: i32, enabled: bool) -> CreateRuleRequest {
    CreateRuleRequest {
        device_id,
        params: RuleParams::MinHoursCheapest(MinHoursCheapestParams {
            min_hours_per_day: 2,
            max_switches_per_day: None,
            min_run_block: None,
        }),
        timezone: "Europe/Madrid".to_string(),
        priority: Some(priority),
        enabled: Some(enabled),
    }
}

#[test]
fn device_evaluation_uses_the_highest_precedence_rule() {
    let (mut store, device_id, first_rule) = store_with_rule();
    put_prices(&mut store, &[1, 5, 2, 8, 3]);
    // a second enabled rule with a worse (higher) priority value
    store.create_rule(USER, extra_rule_req(device_id, 5, true), 61).unwrap();
    let resp = store
        .evaluate_device_schedule(USER, device_id, DATE, 80)
        .unwrap();
    assert_eq!(resp.total_cost, 6); // the priority-1 three-hour rule applied
    assert_eq!(store.schedules.len(), 1);
    assert_eq!(store.schedules[0].rule_id, first_rule);
}

#[test]
fn device_evaluation_without_enabled_rules_is_not_found() {
    let mut store = Store::new();
    let dev = store
        .upsert_device(
            USER,
            DeviceSync {
                google_device_id: "d-9".to_string(),
                name: "fan".to_string(),
                device_type: "fan".to_string(),
                room: None,
                structure_id: None,
                capabilities: "{}".to_string(),
                state: "{}".to_string(),
            },
            50,
        )
        .unwrap();
    assert_eq!(
        store.evaluate_device_schedule(USER, dev.id, DATE, 80).unwrap_err(),
        CoreError::NotFound
    );
}
