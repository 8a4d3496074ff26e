use smartplan::device::DeviceSync;
use smartplan::device::DeviceSyncRequest;
use smartplan::device::StructureSync;
use smartplan::session::HeartbeatRequest;
use smartplan::store::Store;
use smartplan::CoreError;

const USER: u128 = 42;

fn device_payload(ext: &str, name: &str, state: &str) -> DeviceSync {
    DeviceSync {
        google_device_id: ext.to_string(),
        name: name.to_string(),
        device_type: "light".to_string(),
        room: Some("kitchen".to_string()),
        structure_id: None,
        capabilities: "{}".to_string(),
        state: state.to_string(),
    }
}

#[test]
fn new_device_is_created_and_state_seeded() {
    let mut store = Store::new();
    let dev = store
        .upsert_device(USER, device_payload("d-1", "lamp", "{\"on\":false}"), 50)
        .unwrap();
    assert_eq!(store.devices.len(), 1);
    assert_eq!(dev.user_id, USER);
    assert_eq!(dev.name, "lamp");
    let st = store.get_device_state(USER, dev.id).unwrap();
    assert_eq!(st.state_json, "{\"on\":false}");
    assert_eq!(st.updated_at, 50);
}

#[test]
fn matched_device_is_updated_in_place() {
    let mut store = Store::new();
    let first = store
        .upsert_device(USER, device_payload("d-1", "lamp", "{\"on\":false}"), 50)
        .unwrap();
    let second = store
        .upsert_device(USER, device_payload("d-1", "desk lamp", "{\"on\":true}"), 60)
        .unwrap();
    assert_eq!(store.devices.len(), 1);
    assert_eq!(second.id, first.id);
    assert_eq!(store.devices[0].name, "desk lamp");
    assert_eq!(store.devices[0].last_seen_at, 60);
    assert_eq!(store.devices[0].created_at, 50);
    let st = store.get_device_state(USER, first.id).unwrap();
    assert_eq!(st.state_json, "{\"on\":true}");
}

#[test]
fn one_insert_one_update_projects_both_states() {
    let mut store = Store::new();
    store
        .upsert_device(USER, device_payload("d-1", "lamp", "{\"v\":0}"), 50)
        .unwrap();
    assert_eq!(store.states.len(), 1);
    // one existing device (matched by external id) and one new device
    let req = DeviceSyncRequest {
        structures: vec![],
        devices: vec![
            device_payload("d-1", "lamp", "{\"v\":1}"),
            device_payload("d-2", "plug", "{\"v\":2}"),
        ],
    };
    let n = store.sync_batch(USER, req, 60).unwrap();
    assert_eq!(n, 2);
    assert_eq!(store.devices.len(), 2); // one insert, one update
    assert_eq!(store.states.len(), 2); // the projector ran for both
    assert_eq!(store.states[0].state_json, "{\"v\":1}");
    assert_eq!(store.states[1].state_json, "{\"v\":2}");
}

#[test]
fn replaying_a_batch_adds_no_rows() {
    let mut store = Store::new();
    let req = DeviceSyncRequest {
        structures: vec![
            StructureSync { google_structure_id: "s-1".to_string(), name: "home".to_string() },
        ],
        devices: vec![
            device_payload("d-1", "lamp", "{}"),
            device_payload("d-2", "plug", "{}"),
        ],
    };
    let req_again = DeviceSyncRequest {
        structures: vec![
            StructureSync { google_structure_id: "s-1".to_string(), name: "home".to_string() },
        ],
        devices: vec![
            device_payload("d-1", "lamp", "{}"),
            device_payload("d-2", "plug", "{}"),
        ],
    };
    store.sync_batch(USER, req, 50).unwrap();
    let structures_once = store.structures.len();
    let devices_once = store.devices.len();
    store.sync_batch(USER, req_again, 60).unwrap();
    assert_eq!(store.structures.len(), structures_once);
    assert_eq!(store.devices.len(), devices_once);
    assert_eq!(store.structures.len(), 1);
    assert_eq!(store.devices.len(), 2);
}

#[test]
fn duplicate_keys_within_one_batch_create_one_row() {
    let mut store = Store::new();
    let req = DeviceSyncRequest {
        structures: vec![],
        devices: vec![
            device_payload("d-1", "lamp", "{}"),
            device_payload("d-1", "lamp renamed", "{}"),
        ],
    };
    store.sync_batch(USER, req, 50).unwrap();
    assert_eq!(store.devices.len(), 1);
    assert_eq!(store.devices[0].name, "lamp renamed");
}

#[test]
fn structure_reference_resolves_within_user_scope() {
    let mut store = Store::new();
    let s = store.upsert_structure(
        USER,
        StructureSync { google_structure_id: "s-1".to_string(), name: "home".to_string() },
        50,
    );
    let mut linked = device_payload("d-1", "lamp", "{}");
    linked.structure_id = Some("s-1".to_string());
    let dev = store.upsert_device(USER, linked, 60).unwrap();
    assert_eq!(dev.structure_id, Some(s.id));
    // an unresolved reference is no error: the link is simply absent
    let mut dangling = device_payload("d-2", "plug", "{}");
    dangling.structure_id = Some("no-such".to_string());
    let dev2 = store.upsert_device(USER, dangling, 70).unwrap();
    assert_eq!(dev2.structure_id, None);
}

#[test]
fn matched_structure_updates_name_only() {
    let mut store = Store::new();
    let first = store.upsert_structure(
        USER,
        StructureSync { google_structure_id: "s-1".to_string(), name: "home".to_string() },
        50,
    );
    let second = store.upsert_structure(
        USER,
        StructureSync { google_structure_id: "s-1".to_string(), name: "house".to_string() },
        60,
    );
    assert_eq!(store.structures.len(), 1);
    assert_eq!(second.id, first.id);
    assert_eq!(second.name, "house");
    assert_eq!(second.created_at, 50);
    assert_eq!(second.updated_at, 60);
}

#[test]
fn devices_are_scoped_by_user() {
    let mut store = Store::new();
    let dev = store.upsert_device(USER, device_payload("d-1", "lamp", "{}"), 50).unwrap();
    assert_eq!(store.get_device(7, dev.id).unwrap_err(), CoreError::NotFound);
    assert!(store.get_device(USER, dev.id).is_ok());
    assert!(!store.verify_device_ownership(7, dev.id));
    assert!(store.verify_device_ownership(USER, dev.id));
    // the same external id under another user creates a separate row
    store.upsert_device(7, device_payload("d-1", "lamp", "{}"), 55).unwrap();
    assert_eq!(store.devices.len(), 2);
}

#[test]
fn list_devices_filters_by_user() {
    let mut store = Store::new();
    store.upsert_device(USER, device_payload("d-1", "lamp", "{}"), 50).unwrap();
    store.upsert_device(USER, device_payload("d-2", "plug", "{}"), 51).unwrap();
    store.upsert_device(7, device_payload("d-3", "fan", "{}"), 52).unwrap();
    let mine = store.list_devices(USER);
    assert_eq!(mine.len(), 2);
    assert_eq!(mine[0].google_device_id, "d-1");
    assert_eq!(mine[1].google_device_id, "d-2");
}

#[test]
fn snapshot_projection_is_last_write_wins() {
    let mut store = Store::new();
    let dev = store.upsert_device(USER, device_payload("d-1", "lamp", "{\"v\":0}"), 50).unwrap();
    store.apply_mobile_snapshot(dev.id, "{\"v\":1}".to_string(), 60);
    store.apply_command_outcome(dev.id, "{\"v\":2}".to_string(), 70);
    // an out-of-order older report still overwrites: the freshest *report*
    // wins, not the freshest timestamp
    store.apply_mobile_snapshot(dev.id, "{\"v\":3}".to_string(), 65);
    let st = store.get_device_state(USER, dev.id).unwrap();
    assert_eq!(st.state_json, "{\"v\":3}");
    assert_eq!(st.updated_at, 65);
    assert_eq!(store.states.len(), 1);
}

#[test]
fn heartbeat_upserts_the_session_and_delivers_pending() {
    let mut store = Store::new();
    let dev = store.upsert_device(USER, device_payload("d-1", "lamp", "{}"), 50).unwrap();
    store
        .send_command(
            USER,
            smartplan::command::CreateCommandRequest {
                device_id: dev.id,
                command_type: "on_off".to_string(),
                payload: "{}".to_string(),
            },
        )
        .unwrap();
    let req = HeartbeatRequest {
        device_token: "tok-1".to_string(),
        platform: "android".to_string(),
        app_version: "1.0".to_string(),
    };
    let resp = store.heartbeat(USER, req);
    assert_eq!(store.sessions.len(), 1);
    assert_eq!(resp.pending_commands.len(), 1);
    let req2 = HeartbeatRequest {
        device_token: "tok-1".to_string(),
        platform: "android".to_string(),
        app_version: "1.1".to_string(),
    };
    store.heartbeat(USER, req2);
    assert_eq!(store.sessions.len(), 1);
    assert_eq!(store.sessions[0].app_version, "1.1");
}

#[test]
fn sync_devices_wall_clock_entry_point_runs() {
    let mut store = Store::new();
    let req = DeviceSyncRequest {
        structures: vec![],
        devices: vec![device_payload("d-1", "lamp", "{}")],
    };
    let n = store.sync_devices(USER, req).unwrap();
    assert_eq!(n, 1);
    assert_eq!(store.devices.len(), 1);
}
