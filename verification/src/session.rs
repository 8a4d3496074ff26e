//! Mobile client sessions and the heartbeat exchange.
//!
//! A heartbeat refreshes the caller's session liveness and delivers the
//! pending commands for the user's devices, pull-based.

use vstd::prelude::*;

use crate::command::Command;

verus! {

/// One mobile client's session: a push token plus liveness bookkeeping.
#[derive(Debug)]
pub struct MobileSession {
    pub id: u128,
    pub user_id: u128,
    pub device_token: String,
    pub platform: String,
    pub app_version: String,
    pub last_heartbeat: i64,
    pub created_at: i64,
    pub updated_at: i64,
}

/// The fields supplied when creating a mobile session row.
#[derive(Clone, Debug)]
pub struct NewMobileSession {
    pub id: u128,
    pub user_id: u128,
    pub device_token: String,
    pub platform: String,
    pub app_version: String,
}

/// A mobile client's periodic check-in.
#[derive(Clone, Debug)]
pub struct HeartbeatRequest {
    pub device_token: String,
    pub platform: String,
    pub app_version: String,
}

/// The server's answer to a heartbeat: pending commands, oldest first,
/// capped, plus the server clock for client-side skew handling.
#[derive(Debug)]
pub struct HeartbeatResponse {
    pub pending_commands: Vec<Command>,
    pub server_time: i64,
}

impl Clone for MobileSession {
    fn clone(&self) -> (res: Self)
        ensures
            res == *self,
    {
        MobileSession {
            id: self.id,
            user_id: self.user_id,
            device_token: self.device_token.clone(),
            platform: self.platform.clone(),
            app_version: self.app_version.clone(),
            last_heartbeat: self.last_heartbeat,
            created_at: self.created_at,
            updated_at: self.updated_at,
        }
    }
}

} // verus!
