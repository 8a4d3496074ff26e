//! The command dispatch lifecycle: one instruction sent to a device, tracked
//! through `Queued -> Sent -> Acked` (terminal success) or `-> Failed`
//! (terminal unless retried, and retries are bounded).
//!
//! The state machine is a single transition function, `next_status`, so that
//! every permitted move is visible in one place. Store-level operations
//! (enqueue, poll, report) live in the store module; here are the command
//! record itself and its pure transitions.

use vstd::prelude::*;

use crate::schedule::TimeSlot;

verus! {

/// A command may be retried while `retry_count` is below this cap; after
/// that many failed attempts it is permanently `Failed`.
pub const MAX_RETRIES: u32 = 3;

/// A `Queued` command strictly older than this many seconds is stale:
/// excluded from delivery and eligible for failure marking.
pub const EXPIRY_SECONDS: i64 = 300;

/// Delivery status of a command.
#[derive(Clone, Copy, Debug, PartialEq, Eq, Structural)]
pub enum CommandStatus {
    Queued,
    Sent,
    Acked,
    Failed,
}

/// An event driving the command state machine.
#[derive(Clone, Copy, Debug, PartialEq, Eq, Structural)]
pub enum CommandEvent {
    /// The command was handed to the device's mobile session.
    MarkSent,
    /// The device reported successful execution.
    ReportSuccess,
    /// The device reported failed execution.
    ReportFailure,
    /// The caller asked for another delivery attempt.
    Retry,
    /// The command sat in the queue past the staleness window.
    Expire,
}

/// The single transition table of the lifecycle. `None` means the move is
/// not permitted from that status.
///
/// Success reports are honored only from `Sent`: a stale success for an
/// already-retried or expired command is accepted without resurrecting the
/// status (the record keeps its current status). Nothing moves out of
/// `Acked`: an acknowledged command is immutable.
pub open spec fn next_status(s: CommandStatus, e: CommandEvent) -> Option<CommandStatus> {
    match e {
        CommandEvent::MarkSent => if s is Queued {
            Some(CommandStatus::Sent)
        } else {
            None
        },
        CommandEvent::ReportSuccess => if s is Sent {
            Some(CommandStatus::Acked)
        } else if s is Acked {
            None
        } else {
            Some(s)
        },
        CommandEvent::ReportFailure => if s is Acked {
            None
        } else {
            Some(CommandStatus::Failed)
        },
        CommandEvent::Retry => if s is Acked {
            None
        } else {
            Some(CommandStatus::Queued)
        },
        CommandEvent::Expire => if s is Queued {
            Some(CommandStatus::Failed)
        } else {
            None
        },
    }
}

/// A command can only become `Acked` by a success report on a `Sent` command.
pub proof fn lemma_acked_only_from_sent(s: CommandStatus, e: CommandEvent)
    ensures
        next_status(s, e) == Some(CommandStatus::Acked) ==> s == CommandStatus::Sent
            && e == CommandEvent::ReportSuccess,
{
}

/// No event moves a command out of `Acked`.
pub proof fn lemma_acked_is_terminal(e: CommandEvent)
    ensures
        next_status(CommandStatus::Acked, e) is None,
{
}

/// A command whose retry budget is spent is never retriable again: a
/// fourth retry attempt is refused and the command stays as it is.
pub proof fn lemma_retry_budget_exhausted(c: Command)
    requires
        c.retry_count >= MAX_RETRIES,
    ensures
        !spec_is_retriable(c),
{
}

/// The unit of delivery to a device.
///
/// Identifiers are 128-bit values (UUIDs in the wire format); timestamps are
/// epoch seconds; the payload is an opaque document carried through unread.
#[derive(Debug)]
pub struct Command {
    pub id: u128,
    pub user_id: u128,
    pub device_id: u128,
    pub command_type: String,
    pub payload_json: String,
    pub status: CommandStatus,
    pub retry_count: u32,
    pub error_message: Option<String>,
    pub created_at: i64,
    pub executed_at: Option<i64>,
    pub updated_at: i64,
}

/// The fields a caller supplies when creating a command; the store fills in
/// status, retry count and timestamps.
#[derive(Clone, Debug)]
pub struct NewCommand {
    pub id: u128,
    pub user_id: u128,
    pub device_id: u128,
    pub command_type: String,
    pub payload_json: String,
    pub status: CommandStatus,
    pub retry_count: u32,
}

/// Request body for submitting a command to a device.
#[derive(Clone, Debug)]
pub struct CreateCommandRequest {
    pub device_id: u128,
    pub command_type: String,
    pub payload: String,
}

/// A device's report on the outcome of one command execution.
#[derive(Clone, Debug)]
pub struct CommandResult {
    pub command_id: u128,
    pub success: bool,
    pub error_message: Option<String>,
    pub new_state: Option<String>,
    pub executed_at: i64,
}

/// Payload of an on/off command.
#[derive(Clone, Copy, Debug, PartialEq, Eq, Structural)]
pub struct OnOffPayload {
    pub on: bool,
}

/// Payload of a brightness command, as a percentage.
#[derive(Clone, Copy, Debug, PartialEq, Eq, Structural)]
pub struct BrightnessPayload {
    pub brightness: u8,
}

/// Whether a command may still be retried: the retry budget is not spent and
/// the command was never acknowledged.
pub open spec fn spec_is_retriable(c: Command) -> bool {
    c.retry_count < MAX_RETRIES && !(c.status is Acked)
}

/// Whether a command is stale at time `now`: still `Queued` and created more
/// than `EXPIRY_SECONDS` before `now`.
pub open spec fn spec_should_expire(c: Command, now: i64) -> bool {
    c.status is Queued && c.created_at + EXPIRY_SECONDS < now
}

/// The wire code of each delivery status.
pub open spec fn spec_status_code(s: CommandStatus) -> Seq<char> {
    match s {
        CommandStatus::Queued => "queued"@,
        CommandStatus::Sent => "sent"@,
        CommandStatus::Acked => "acked"@,
        CommandStatus::Failed => "failed"@,
    }
}

impl CommandStatus {
    /// The wire code of this status.
    pub fn code(&self) -> (r: &'static str)
        ensures
            r@ == spec_status_code(*self),
    {
        match self {
            CommandStatus::Queued => "queued",
            CommandStatus::Sent => "sent",
            CommandStatus::Acked => "acked",
            CommandStatus::Failed => "failed",
        }
    }
}

impl Command {
    /// Current delivery status.
    pub fn get_status(&self) -> (r: CommandStatus)
        ensures
            r == self.status,
    {
        self.status
    }

    /// A command is retriable while `retry_count < MAX_RETRIES` and it has
    /// not been acknowledged.
    pub fn is_retriable(&self) -> (r: bool)
        ensures
            r == spec_is_retriable(*self),
    {
        self.retry_count < MAX_RETRIES && !matches!(self.status, CommandStatus::Acked)
    }

    /// Whether the command is stale at time `now`; delivery latency beyond
    /// the window indicates a disconnected device, not a transient blip.
    pub fn should_expire(&self, now: i64) -> (r: bool)
        ensures
            r == spec_should_expire(*self, now),
    {
        matches!(self.status, CommandStatus::Queued)
            && (self.created_at as i128) + (EXPIRY_SECONDS as i128) < (now as i128)
    }
}

impl Clone for Command {
    fn clone(&self) -> (res: Self)
        ensures
            res == *self,
    {
        Command {
            id: self.id,
            user_id: self.user_id,
            device_id: self.device_id,
            command_type: self.command_type.clone(),
            payload_json: self.payload_json.clone(),
            status: self.status,
            retry_count: self.retry_count,
            error_message: crate::device::clone_opt_string(&self.error_message),
            created_at: self.created_at,
            executed_at: self.executed_at,
            updated_at: self.updated_at,
        }
    }
}

/// The character of one decimal digit.
pub open spec fn digit_char(d: nat) -> char {
    if d == 0 {
        '0'
    } else if d == 1 {
        '1'
    } else if d == 2 {
        '2'
    } else if d == 3 {
        '3'
    } else if d == 4 {
        '4'
    } else if d == 5 {
        '5'
    } else if d == 6 {
        '6'
    } else if d == 7 {
        '7'
    } else if d == 8 {
        '8'
    } else {
        '9'
    }
}

/// The decimal digits of `n`, most significant first.
pub open spec fn spec_decimal(n: nat) -> Seq<char>
    decreases n,
{
    if n < 10 {
        seq![digit_char(n)]
    } else {
        spec_decimal(n / 10).push(digit_char(n % 10))
    }
}

/// One decimal digit as a string slice.
fn digit_str(d: u16) -> (r: &'static str)
    requires
        d < 10,
    ensures
        r@ == seq![digit_char(d as nat)],
{
    proof {
        reveal_strlit("0");
        reveal_strlit("1");
        reveal_strlit("2");
        reveal_strlit("3");
        reveal_strlit("4");
        reveal_strlit("5");
        reveal_strlit("6");
        reveal_strlit("7");
        reveal_strlit("8");
        reveal_strlit("9");
    }
    match d {
        0 => "0",
        1 => "1",
        2 => "2",
        3 => "3",
        4 => "4",
        5 => "5",
        6 => "6",
        7 => "7",
        8 => "8",
        _ => "9",
    }
}

/// Appends the decimal rendering of `n` to `out`.
fn append_decimal(n: u16, out: &mut String)
    ensures
        final(out)@ == old(out)@ + spec_decimal(n as nat),
    decreases n,
{
    if n < 10 {
        out.append(digit_str(n));
        proof {
            assert(out@ =~= old(out)@ + spec_decimal(n as nat));
        }
    } else {
        append_decimal(n / 10, out);
        out.append(digit_str(n % 10));
        proof {
            assert(out@ =~= old(out)@ + spec_decimal(n as nat));
        }
    }
}

/// The on/off payload a slot boundary sends to the device: switch ON for
/// the slot's minute interval.
pub open spec fn spec_slot_payload(s: TimeSlot) -> Seq<char> {
    "{\"on\":true,\"from_minute\":"@ + spec_decimal(s.start as nat) + ",\"to_minute\":"@
        + spec_decimal(s.end as nat) + "}"@
}

/// Renders one slot's command payload.
fn slot_payload(s: TimeSlot) -> (r: String)
    ensures
        r@ == spec_slot_payload(s),
{
    let mut out = String::new();
    out.append("{\"on\":true,\"from_minute\":");
    append_decimal(s.start, &mut out);
    out.append(",\"to_minute\":");
    append_decimal(s.end, &mut out);
    out.append("}");
    proof {
        assert(out@ =~= spec_slot_payload(s));
    }
    out
}

/// Turns a computed schedule's ON slots into the command requests that
/// deliver them: one `on_off` command per slot, carrying the slot's minute
/// interval in its payload. Each slot boundary becomes a command for the
/// command lifecycle to track.
pub fn commands_for_slots(device_id: u128, slots: &Vec<TimeSlot>) -> (r: Vec<CreateCommandRequest>)
    ensures
        r@.len() == slots@.len(),
        forall|k: int|
            0 <= k < slots@.len() ==> (#[trigger] r@[k]).device_id == device_id
                && r@[k].command_type@ == "on_off"@ && r@[k].payload@ == spec_slot_payload(
                slots@[k],
            ),
{
    let mut out: Vec<CreateCommandRequest> = Vec::new();
    let mut i: usize = 0;
    while i < slots.len()
        invariant
            i <= slots@.len(),
            out@.len() == i,
            forall|k: int|
                0 <= k < i ==> (#[trigger] out@[k]).device_id == device_id
                    && out@[k].command_type@ == "on_off"@ && out@[k].payload@ == spec_slot_payload(
                    slots@[k],
                ),
        decreases slots.len() - i,
    {
        let payload = slot_payload(slots[i]);
        out.push(
            CreateCommandRequest { device_id, command_type: "on_off".to_owned(), payload },
        );
        i = i + 1;
    }
    out
}

} // verus!
