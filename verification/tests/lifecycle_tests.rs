use smartplan::command::commands_for_slots;
use smartplan::command::CommandResult;
use smartplan::command::CommandStatus;
use smartplan::command::CreateCommandRequest;
use smartplan::device::DeviceSync;
use smartplan::schedule::SlotAction;
use smartplan::schedule::TimeSlot;
use smartplan::store::Store;
use smartplan::CoreError;

const USER: u128 = 42;

fn device_payload(ext: &str) -> DeviceSync {
    DeviceSync {
        google_device_id: ext.to_string(),
        name: "lamp".to_string(),
        device_type: "light".to_string(),
        room: None,
        structure_id: None,
        capabilities: "{}".to_string(),
        state: "{\"on\":false}".to_string(),
    }
}

fn store_with_device() -> (Store, u128) {
    let mut store = Store::new();
    let dev = store.upsert_device(USER, device_payload("ext-1"), 100).unwrap();
    (store, dev.id)
}

fn cmd_request(device_id: u128) -> CreateCommandRequest {
    CreateCommandRequest {
        device_id,
        command_type: "on_off".to_string(),
        payload: "{\"on\":true}".to_string(),
    }
}

#[test]
fn enqueue_creates_a_queued_command() {
    let (mut store, device_id) = store_with_device();
    let cmd = store.enqueue(USER, cmd_request(device_id), 1_000).unwrap();
    assert_eq!(cmd.status, CommandStatus::Queued);
    assert_eq!(cmd.retry_count, 0);
    assert_eq!(cmd.device_id, device_id);
    assert_eq!(cmd.created_at, 1_000);
    assert_eq!(store.commands.len(), 1);
}

#[test]
fn enqueue_refuses_foreign_devices() {
    let (mut store, device_id) = store_with_device();
    let r = store.enqueue(7, cmd_request(device_id), 1_000);
    assert_eq!(r.unwrap_err(), CoreError::DeviceNotOwned);
    assert_eq!(store.commands.len(), 0);
}

#[test]
fn mark_sent_only_from_queued() {
    let (mut store, device_id) = store_with_device();
    let cmd = store.enqueue(USER, cmd_request(device_id), 1_000).unwrap();
    assert!(store.mark_sent(cmd.id, 1_001).is_ok());
    assert_eq!(store.commands[0].status, CommandStatus::Sent);
    let again = store.mark_sent(cmd.id, 1_002);
    assert_eq!(again.unwrap_err(), CoreError::InvalidTransition);
    assert_eq!(store.mark_sent(999, 1_002).unwrap_err(), CoreError::NotFound);
}

#[test]
fn acked_only_from_sent() {
    let (mut store, device_id) = store_with_device();
    let cmd = store.enqueue(USER, cmd_request(device_id), 1_000).unwrap();
    // a success report on a command never handed out does not acknowledge it
    let stale = CommandResult {
        command_id: cmd.id,
        success: true,
        error_message: None,
        new_state: None,
        executed_at: 1_001,
    };
    store.report_result(stale, 1_001).unwrap();
    assert_eq!(store.commands[0].status, CommandStatus::Queued);
    store.mark_sent(cmd.id, 1_002).unwrap();
    let ok = CommandResult {
        command_id: cmd.id,
        success: true,
        error_message: None,
        new_state: None,
        executed_at: 1_003,
    };
    store.report_result(ok, 1_003).unwrap();
    assert_eq!(store.commands[0].status, CommandStatus::Acked);
    // an acknowledged command is immutable: further reports are ignored
    let late = CommandResult {
        command_id: cmd.id,
        success: false,
        error_message: Some("late".to_string()),
        new_state: None,
        executed_at: 1_004,
    };
    store.report_result(late, 1_004).unwrap();
    assert_eq!(store.commands[0].status, CommandStatus::Acked);
    assert_eq!(store.commands[0].error_message, None);
}

#[test]
fn three_failures_exhaust_the_retry_budget() {
    let (mut store, device_id) = store_with_device();
    let cmd = store.enqueue(USER, cmd_request(device_id), 1_000).unwrap();
    let mut now = 1_000;
    for _attempt in 0..3 {
        now += 1;
        store.mark_sent(cmd.id, now).unwrap();
        now += 1;
        let fail = CommandResult {
            command_id: cmd.id,
            success: false,
            error_message: Some("device unreachable".to_string()),
            new_state: None,
            executed_at: now,
        };
        store.report_result(fail, now).unwrap();
        assert_eq!(store.commands[0].status, CommandStatus::Failed);
        if store.commands[0].is_retriable() {
            store.retry_command(cmd.id, now).unwrap();
            assert_eq!(store.commands[0].status, CommandStatus::Queued);
        }
    }
    // after the third failed attempt: permanently Failed, budget spent
    assert_eq!(store.commands[0].status, CommandStatus::Failed);
    assert_eq!(store.commands[0].retry_count, 3);
    assert!(!store.commands[0].is_retriable());
    let fourth = store.retry_command(cmd.id, now + 1);
    assert_eq!(fourth.unwrap_err(), CoreError::InvalidTransition);
    assert_eq!(store.commands[0].status, CommandStatus::Failed);
}

#[test]
fn stale_queued_commands_are_not_polled() {
    let (mut store, device_id) = store_with_device();
    let cmd = store.enqueue(USER, cmd_request(device_id), 1_000).unwrap();
    // at 300 seconds of age the command is still delivered
    let batch = store.get_pending_commands(USER, 1_300);
    assert_eq!(batch.len(), 1);
    assert_eq!(batch[0].id, cmd.id);
    // strictly older than 300 seconds: excluded
    let late = store.get_pending_commands(USER, 1_301);
    assert_eq!(late.len(), 0);
}

#[test]
fn poll_returns_oldest_first_capped_at_ten() {
    let (mut store, device_id) = store_with_device();
    let mut ids: Vec<u128> = Vec::new();
    for k in 0..12 {
        let cmd = store.enqueue(USER, cmd_request(device_id), 1_000 + k).unwrap();
        ids.push(cmd.id);
    }
    let batch = store.get_pending_commands(USER, 1_100);
    assert_eq!(batch.len(), 10);
    for k in 0..10 {
        assert_eq!(batch[k].id, ids[k]);
        assert_eq!(batch[k].status, CommandStatus::Queued);
    }
}

#[test]
fn poll_skips_other_users_and_non_queued() {
    let (mut store, device_id) = store_with_device();
    let other_dev = store
        .upsert_device(7, device_payload("ext-other"), 100)
        .unwrap();
    let mine = store.enqueue(USER, cmd_request(device_id), 1_000).unwrap();
    let sent = store.enqueue(USER, cmd_request(device_id), 1_001).unwrap();
    store.mark_sent(sent.id, 1_002).unwrap();
    store.enqueue(7, cmd_request(other_dev.id), 1_003).unwrap();
    let batch = store.get_pending_commands(USER, 1_010);
    assert_eq!(batch.len(), 1);
    assert_eq!(batch[0].id, mine.id);
}

#[test]
fn expiry_sweep_fails_stale_commands_with_a_message() {
    let (mut store, device_id) = store_with_device();
    let old = store.enqueue(USER, cmd_request(device_id), 1_000).unwrap();
    let fresh = store.enqueue(USER, cmd_request(device_id), 2_000).unwrap();
    let n = store.expire_stale_commands(2_100);
    assert_eq!(n, 1);
    assert_eq!(store.commands[0].id, old.id);
    assert_eq!(store.commands[0].status, CommandStatus::Failed);
    assert_eq!(store.commands[0].error_message.as_deref(), Some("expired in queue"));
    assert_eq!(store.commands[1].id, fresh.id);
    assert_eq!(store.commands[1].status, CommandStatus::Queued);
}

#[test]
fn successful_outcome_projects_reported_state() {
    let (mut store, device_id) = store_with_device();
    let cmd = store.enqueue(USER, cmd_request(device_id), 1_000).unwrap();
    store.mark_sent(cmd.id, 1_001).unwrap();
    let ok = CommandResult {
        command_id: cmd.id,
        success: true,
        error_message: None,
        new_state: Some("{\"on\":true}".to_string()),
        executed_at: 1_002,
    };
    store.report_result(ok, 1_002).unwrap();
    let state = store.get_device_state(USER, device_id).unwrap();
    assert_eq!(state.state_json, "{\"on\":true}");
    assert_eq!(state.updated_at, 1_002);
}

#[test]
fn report_for_unknown_command_is_not_found() {
    let mut store = Store::new();
    let res = CommandResult {
        command_id: 5,
        success: true,
        error_message: None,
        new_state: None,
        executed_at: 1,
    };
    assert_eq!(store.report_result(res, 1).unwrap_err(), CoreError::NotFound);
}

#[test]
fn wall_clock_entry_points_run() {
    let (mut store, device_id) = store_with_device();
    let cmd = store.send_command(USER, cmd_request(device_id)).unwrap();
    assert_eq!(cmd.status, CommandStatus::Queued);
    let res = CommandResult {
        command_id: cmd.id,
        success: false,
        error_message: Some("offline".to_string()),
        new_state: None,
        executed_at: 0,
    };
    store.command_result(res).unwrap();
    assert_eq!(store.commands[0].status, CommandStatus::Failed);
}

#[test]
fn a_backwards_clock_never_reorders_the_queue() {
    let (mut store, device_id) = store_with_device();
    let first = store.enqueue(USER, cmd_request(device_id), 2_000).unwrap();
    // the wall clock steps backwards; the new command's creation time is
    // clamped so the table stays in creation order
    let second = store.enqueue(USER, cmd_request(device_id), 1_500).unwrap();
    assert_eq!(first.created_at, 2_000);
    assert_eq!(second.created_at, 2_000);
    let batch = store.get_pending_commands(USER, 2_100);
    assert_eq!(batch.len(), 2);
    assert!(batch[0].created_at <= batch[1].created_at);
    assert_eq!(batch[0].id, first.id);
}

#[test]
fn slot_commands_carry_the_interval_payload() {
    let slots = vec![
        TimeSlot { start: 0, end: 60, action: SlotAction::On },
        TimeSlot { start: 240, end: 360, action: SlotAction::On },
    ];
    let reqs = commands_for_slots(9, &slots);
    assert_eq!(reqs.len(), 2);
    assert_eq!(reqs[0].device_id, 9);
    assert_eq!(reqs[0].command_type, "on_off");
    assert_eq!(reqs[0].payload, "{\"on\":true,\"from_minute\":0,\"to_minute\":60}");
    assert_eq!(reqs[1].payload, "{\"on\":true,\"from_minute\":240,\"to_minute\":360}");
}
