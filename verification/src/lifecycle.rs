//! The command lifecycle manager: queuing, pull-based delivery,
//! acknowledgment, bounded retry, and expiry of device commands over an
//! unreliable, intermittently-connected mobile link.
//!
//! Every operation here follows the transition table in the command module:
//! `Queued -> Sent -> Acked`, or `-> Failed` with bounded re-queuing. A
//! client may report a result for an already-retried or expired command;
//! such reports are accepted while the command is not acknowledged and
//! ignored as stale once it is.

use vstd::prelude::*;

use crate::command::spec_is_retriable;
use crate::command::spec_should_expire;
use crate::command::Command;
use crate::command::CommandResult;
use crate::command::CommandStatus;
use crate::command::CreateCommandRequest;
use crate::command::MAX_RETRIES;
use crate::platform::fresh_id;
use crate::platform::now_epoch_seconds;
use crate::projector::spec_projected;
use crate::store::commands_ordered;
use crate::store::commands_wf;
use crate::store::unchanged_except_commands;
use crate::store::unchanged_except_commands_and_states;
use crate::store::Store;
use crate::store::StoreView;
use crate::CoreError;

verus! {

/// At most this many `Queued` commands are handed out per poll, oldest
/// first, to bound payload size and give fairness across a user's devices.
pub const POLL_BATCH_SIZE: usize = 10;

/// Whether a command with id `id` exists.
pub open spec fn spec_has_command(cs: Seq<Command>, id: u128) -> bool {
    exists|i: int| 0 <= i < cs.len() && (#[trigger] cs[i]).id == id
}

/// The creation instant `enqueue` stamps on a new command: the wall clock,
/// clamped so that it never precedes the youngest stored command — table
/// order stays creation order even if the clock steps backwards.
pub open spec fn spec_enqueue_time(cs: Seq<Command>, now: i64) -> i64 {
    if cs.len() == 0 || cs.last().created_at <= now {
        now
    } else {
        cs.last().created_at
    }
}

/// The record a result report turns `c` into (for `c` not yet `Acked`):
/// a success acknowledges a `Sent` command and leaves any other status in
/// place (stale success); a failure marks the command `Failed` and spends
/// one unit of the retry budget, so three failed attempts exhaust it. The
/// report's error message and execution time are recorded either way.
pub open spec fn reported(c: Command, success: bool, err: Option<String>, now: i64) -> Command {
    Command {
        status: if success {
            if c.status is Sent {
                CommandStatus::Acked
            } else {
                c.status
            }
        } else {
            CommandStatus::Failed
        },
        retry_count: if success || c.retry_count >= MAX_RETRIES {
            c.retry_count
        } else {
            (c.retry_count + 1) as u32
        },
        error_message: err,
        executed_at: Some(now),
        updated_at: now,
        ..c
    }
}

/// The full effect of an accepted result report on the store: the command's
/// record is rewritten by `reported`, and on success a reported state
/// document is forwarded to the device state projector. A report on an
/// `Acked` command changes nothing.
pub open spec fn spec_report_outcome(
    pre: StoreView,
    post: StoreView,
    res: CommandResult,
    now: i64,
) -> bool {
    exists|i: int|
        0 <= i < pre.commands.len() && (#[trigger] pre.commands[i]).id == res.command_id && ({
            let c = pre.commands[i];
            if c.status is Acked {
                post == pre
            } else {
                &&& post.commands == pre.commands.update(
                    i,
                    reported(c, res.success, res.error_message, now),
                )
                &&& if res.success {
                    match res.new_state {
                        Some(doc) => spec_projected(pre.states, post.states, c.device_id, doc, now),
                        None => post.states == pre.states,
                    }
                } else {
                    post.states == pre.states
                }
            }
        })
}

/// Whether a command is a delivery candidate for `user` at time `now`:
/// still `Queued` and not stale.
pub open spec fn eligible_command(c: Command, user: u128, now: i64) -> bool {
    c.user_id == user && c.status is Queued && !spec_should_expire(c, now)
}

/// The delivery batch drawn from `cs` front to back (oldest first): the
/// first `cap` eligible commands.
pub open spec fn pending_model(cs: Seq<Command>, user: u128, now: i64, cap: nat) -> Seq<Command>
    decreases cs.len(),
{
    if cs.len() == 0 || cap == 0 {
        Seq::empty()
    } else if eligible_command(cs.first(), user, now) {
        seq![cs.first()] + pending_model(cs.drop_first(), user, now, (cap - 1) as nat)
    } else {
        pending_model(cs.drop_first(), user, now, cap)
    }
}

/// The batch never exceeds the cap nor the table size.
pub proof fn lemma_pending_model_len(cs: Seq<Command>, user: u128, now: i64, cap: nat)
    ensures
        pending_model(cs, user, now, cap).len() <= cap,
        pending_model(cs, user, now, cap).len() <= cs.len(),
    decreases cs.len(),
{
    if cs.len() == 0 || cap == 0 {
    } else if eligible_command(cs.first(), user, now) {
        lemma_pending_model_len(cs.drop_first(), user, now, (cap - 1) as nat);
    } else {
        lemma_pending_model_len(cs.drop_first(), user, now, cap);
    }
}

/// Every command in the batch is an eligible one: `Queued`, owned by the
/// user, and not stale. In particular a `Queued` command older than the
/// expiry window is excluded from delivery.
pub proof fn lemma_pending_model_eligible(cs: Seq<Command>, user: u128, now: i64, cap: nat, k: int)
    requires
        0 <= k < pending_model(cs, user, now, cap).len(),
    ensures
        eligible_command(pending_model(cs, user, now, cap)[k], user, now),
    decreases cs.len(),
{
    if cs.len() == 0 || cap == 0 {
    } else if eligible_command(cs.first(), user, now) {
        if k > 0 {
            lemma_pending_model_eligible(cs.drop_first(), user, now, (cap - 1) as nat, k - 1);
        }
    } else {
        lemma_pending_model_eligible(cs.drop_first(), user, now, cap, k);
    }
}

/// Appending one command to the table extends the batch exactly when the
/// batch still has room and the command is eligible.
proof fn lemma_pending_model_push(cs: Seq<Command>, x: Command, user: u128, now: i64, cap: nat)
    ensures
        pending_model(cs.push(x), user, now, cap) == (if pending_model(
            cs,
            user,
            now,
            cap,
        ).len() < cap && eligible_command(x, user, now) {
            pending_model(cs, user, now, cap).push(x)
        } else {
            pending_model(cs, user, now, cap)
        }),
    decreases cs.len(),
{
    let s = cs.push(x);
    lemma_pending_model_len(cs, user, now, cap);
    reveal_with_fuel(pending_model, 3);
    if cap == 0 {
        assert(pending_model(s, user, now, cap) =~= pending_model(cs, user, now, cap));
    } else if cs.len() == 0 {
        assert(s.first() == x);
        assert(s.drop_first() =~= Seq::<Command>::empty());
        assert(pending_model(cs, user, now, cap) =~= Seq::<Command>::empty());
        if eligible_command(x, user, now) {
            assert(pending_model(s, user, now, cap) =~= seq![x]);
            assert(pending_model(cs, user, now, cap).push(x) =~= seq![x]);
        } else {
            assert(pending_model(s, user, now, cap) =~= Seq::<Command>::empty());
        }
    } else {
        assert(s.first() == cs.first());
        assert(s.drop_first() =~= cs.drop_first().push(x));
        if eligible_command(cs.first(), user, now) {
            lemma_pending_model_push(cs.drop_first(), x, user, now, (cap - 1) as nat);
            lemma_pending_model_len(cs.drop_first(), user, now, (cap - 1) as nat);
            if pending_model(cs.drop_first(), user, now, (cap - 1) as nat).len() < (cap - 1) as nat
                && eligible_command(x, user, now) {
                assert(pending_model(s, user, now, cap) =~= pending_model(
                    cs,
                    user,
                    now,
                    cap,
                ).push(x));
            } else {
                assert(pending_model(s, user, now, cap) =~= pending_model(cs, user, now, cap));
            }
        } else {
            lemma_pending_model_push(cs.drop_first(), x, user, now, cap);
        }
    }
}

/// A lower bound on every creation time in the table bounds the batch too.
proof fn lemma_pending_model_lower(cs: Seq<Command>, user: u128, now: i64, cap: nat, t: i64)
    requires
        forall|i: int| 0 <= i < cs.len() ==> t <= (#[trigger] cs[i]).created_at,
    ensures
        forall|k: int|
            0 <= k < pending_model(cs, user, now, cap).len() ==> t <= (#[trigger] pending_model(
                cs,
                user,
                now,
                cap,
            )[k]).created_at,
    decreases cs.len(),
{
    if cs.len() == 0 || cap == 0 {
    } else {
        assert(forall|i: int|
            0 <= i < cs.drop_first().len() ==> t <= (#[trigger] cs.drop_first()[i]).created_at);
        if eligible_command(cs.first(), user, now) {
            lemma_pending_model_lower(cs.drop_first(), user, now, (cap - 1) as nat, t);
        } else {
            lemma_pending_model_lower(cs.drop_first(), user, now, cap, t);
        }
    }
}

/// Over a creation-ordered table, the batch is ordered by creation time:
/// polling really delivers the oldest commands first.
pub proof fn lemma_pending_model_ordered(cs: Seq<Command>, user: u128, now: i64, cap: nat)
    requires
        crate::store::commands_ordered(cs),
    ensures
        forall|k: int, l: int|
            0 <= k <= l < pending_model(cs, user, now, cap).len() ==> (#[trigger] pending_model(
                cs,
                user,
                now,
                cap,
            )[k]).created_at <= (#[trigger] pending_model(cs, user, now, cap)[l]).created_at,
    decreases cs.len(),
{
    if cs.len() == 0 || cap == 0 {
    } else {
        assert(crate::store::commands_ordered(cs.drop_first())) by {
            assert(forall|i: int, j: int|
                0 <= i <= j < cs.drop_first().len() ==> (
                #[trigger] cs.drop_first()[i]).created_at <= (
                #[trigger] cs.drop_first()[j]).created_at);
        }
        if eligible_command(cs.first(), user, now) {
            lemma_pending_model_ordered(cs.drop_first(), user, now, (cap - 1) as nat);
            assert(forall|i: int|
                0 <= i < cs.drop_first().len() ==> cs.first().created_at <= (
                #[trigger] cs.drop_first()[i]).created_at);
            lemma_pending_model_lower(
                cs.drop_first(),
                user,
                now,
                (cap - 1) as nat,
                cs.first().created_at,
            );
        } else {
            lemma_pending_model_ordered(cs.drop_first(), user, now, cap);
        }
    }
}

/// How many commands of `cs` are stale at time `now`.
pub open spec fn count_expired(cs: Seq<Command>, now: i64) -> nat
    decreases cs.len(),
{
    if cs.len() == 0 {
        0
    } else {
        count_expired(cs.drop_last(), now) + (if spec_should_expire(cs.last(), now) {
            1nat
        } else {
            0nat
        })
    }
}

/// The record an expiry sweep turns a stale command `c` into, with `m` the
/// human-readable failure message persisted with it.
pub open spec fn expired_as(c: Command, m: String, now: i64) -> Command {
    Command {
        status: CommandStatus::Failed,
        error_message: Some(m),
        updated_at: now,
        ..c
    }
}

impl Store {
    /// The index of the command with id `id`, if any.
    fn find_command_index(&self, id: u128) -> (r: Option<usize>)
        ensures
            match r {
                Some(i) => i < self@.commands.len() && self@.commands[i as int].id == id,
                None => !spec_has_command(self@.commands, id),
            },
    {
        let mut i: usize = 0;
        while i < self.commands.len()
            invariant
                i <= self.commands.len(),
                forall|j: int| 0 <= j < i ==> (#[trigger] self@.commands[j]).id != id,
            decreases self.commands.len() - i,
        {
            if self.commands[i].id == id {
                return Some(i);
            }
            i = i + 1;
        }
        None
    }

    /// Creates a command in `Queued` for an owned device, at time `now`
    /// (clamped by `spec_enqueue_time` so the table stays in creation
    /// order), under a freshly drawn id. Fails with `DeviceNotOwned` when
    /// the device does not belong to `user`, and with `StorageConflict` in
    /// the (random, vanishingly unlikely) event that the drawn id is
    /// already taken.
    pub fn enqueue(&mut self, user: u128, req: CreateCommandRequest, now: i64) -> (r: Result<
        Command,
        CoreError,
    >)
        requires
            old(self).wf(),
        ensures
            final(self).wf(),
            unchanged_except_commands(old(self)@, final(self)@),
            match r {
                Ok(c) => old(self).spec_owns_device(user, req.device_id) && !spec_has_command(
                    old(self)@.commands,
                    c.id,
                ) && c == (Command {
                    id: c.id,
                    user_id: user,
                    device_id: req.device_id,
                    command_type: req.command_type,
                    payload_json: req.payload,
                    status: CommandStatus::Queued,
                    retry_count: 0,
                    error_message: None,
                    created_at: spec_enqueue_time(old(self)@.commands, now),
                    executed_at: None,
                    updated_at: spec_enqueue_time(old(self)@.commands, now),
                }) && final(self)@.commands == old(self)@.commands.push(c),
                Err(e) => final(self)@ == old(self)@ && ((e == CoreError::DeviceNotOwned && !old(
                    self,
                ).spec_owns_device(user, req.device_id)) || (e == CoreError::StorageConflict && old(
                    self,
                ).spec_owns_device(user, req.device_id))),
            },
    {
        if !self.verify_device_ownership(user, req.device_id) {
            return Err(CoreError::DeviceNotOwned);
        }
        let id = fresh_id();
        if let Some(_existing) = self.find_command_index(id) {
            return Err(CoreError::StorageConflict);
        }
        let t: i64 = if self.commands.len() > 0 {
            let youngest = self.commands[self.commands.len() - 1].created_at;
            if now < youngest {
                youngest
            } else {
                now
            }
        } else {
            now
        };
        proof {
            assert(self@.commands == old(self)@.commands);
            assert(t == spec_enqueue_time(old(self)@.commands, now));
        }
        let cmd = Command {
            id,
            user_id: user,
            device_id: req.device_id,
            command_type: req.command_type,
            payload_json: req.payload,
            status: CommandStatus::Queued,
            retry_count: 0,
            error_message: None,
            created_at: t,
            executed_at: None,
            updated_at: t,
        };
        let ret = cmd.clone();
        let ghost pre = self@.commands;
        self.commands.push(cmd);
        proof {
            assert(commands_wf(self@.commands));
            assert(commands_ordered(self@.commands)) by {
                assert forall|x: int, y: int|
                    0 <= x <= y < self@.commands.len() implies (
                #[trigger] self@.commands[x]).created_at <= (
                #[trigger] self@.commands[y]).created_at by {
                    if y == pre.len() as int && x < y {
                        assert(pre[x].created_at <= pre[pre.len() - 1].created_at);
                    }
                }
            }
        }
        Ok(ret)
    }

    /// Submits a command to a device at the current wall-clock time; the
    /// command descriptor is returned for the caller.
    pub fn send_command(&mut self, user: u128, req: CreateCommandRequest) -> (r: Result<
        Command,
        CoreError,
    >)
        requires
            old(self).wf(),
        ensures
            final(self).wf(),
            unchanged_except_commands(old(self)@, final(self)@),
            match r {
                Ok(c) => old(self).spec_owns_device(user, req.device_id) && !spec_has_command(
                    old(self)@.commands,
                    c.id,
                ) && c == (Command {
                    id: c.id,
                    user_id: user,
                    device_id: req.device_id,
                    command_type: req.command_type,
                    payload_json: req.payload,
                    status: CommandStatus::Queued,
                    retry_count: 0,
                    error_message: None,
                    created_at: c.created_at,
                    executed_at: None,
                    updated_at: c.created_at,
                }) && final(self)@.commands == old(self)@.commands.push(c),
                Err(e) => final(self)@ == old(self)@ && ((e == CoreError::DeviceNotOwned && !old(
                    self,
                ).spec_owns_device(user, req.device_id)) || (e == CoreError::StorageConflict && old(
                    self,
                ).spec_owns_device(user, req.device_id))),
            },
    {
        let now = now_epoch_seconds();
        self.enqueue(user, req, now)
    }

    /// Marks a `Queued` command `Sent`: the only permitted move out of
    /// `Queued` on the delivery path. Any other current status is an
    /// `InvalidTransition`, surfaced and never silently corrected.
    pub fn mark_sent(&mut self, command_id: u128, now: i64) -> (r: Result<(), CoreError>)
        requires
            old(self).wf(),
        ensures
            final(self).wf(),
            unchanged_except_commands(old(self)@, final(self)@),
            match r {
                Ok(()) => exists|i: int|
                    0 <= i < old(self)@.commands.len() && (#[trigger] old(
                        self,
                    )@.commands[i]).id == command_id && old(self)@.commands[i].status is Queued
                        && final(self)@.commands == old(self)@.commands.update(
                        i,
                        Command {
                            status: CommandStatus::Sent,
                            updated_at: now,
                            ..old(self)@.commands[i]
                        },
                    ),
                Err(e) => final(self)@ == old(self)@ && ((e == CoreError::NotFound
                    && !spec_has_command(old(self)@.commands, command_id)) || (e
                    == CoreError::InvalidTransition && exists|i: int|
                    0 <= i < old(self)@.commands.len() && (#[trigger] old(
                        self,
                    )@.commands[i]).id == command_id && !(old(
                        self,
                    )@.commands[i].status is Queued))),
            },
    {
        match self.find_command_index(command_id) {
            None => Err(CoreError::NotFound),
            Some(i) => {
                if !matches!(self.commands[i].status, CommandStatus::Queued) {
                    return Err(CoreError::InvalidTransition);
                }
                let ghost pre = self@.commands;
                let mut row = self.commands.remove(i);
                row.status = CommandStatus::Sent;
                row.updated_at = now;
                self.commands.insert(i, row);
                proof {
                    assert(self@.commands =~= pre.update(
                        i as int,
                        Command {
                            status: CommandStatus::Sent,
                            updated_at: now,
                            ..pre[i as int]
                        },
                    ));
                    assert(commands_wf(self@.commands));
                }
                Ok(())
            },
        }
    }

    /// Records a device's report on one command execution at time `now`:
    /// `Sent -> Acked` on success, non-`Acked -> Failed` on failure, with
    /// the error message and execution time persisted. On success a reported
    /// state document is forwarded to the device state projector. A report
    /// for an `Acked` command is ignored as stale; an unknown command id is
    /// `NotFound`.
    pub fn report_result(&mut self, res: CommandResult, now: i64) -> (r: Result<(), CoreError>)
        requires
            old(self).wf(),
        ensures
            final(self).wf(),
            unchanged_except_commands_and_states(old(self)@, final(self)@),
            match r {
                Ok(()) => spec_report_outcome(old(self)@, final(self)@, res, now),
                Err(e) => e == CoreError::NotFound && final(self)@ == old(self)@
                    && !spec_has_command(old(self)@.commands, res.command_id),
            },
    {
        match self.find_command_index(res.command_id) {
            None => Err(CoreError::NotFound),
            Some(i) => {
                if matches!(self.commands[i].status, CommandStatus::Acked) {
                    return Ok(());
                }
                let ghost pre = self@;
                let mut row = self.commands.remove(i);
                let device_id = row.device_id;
                if res.success {
                    if matches!(row.status, CommandStatus::Sent) {
                        row.status = CommandStatus::Acked;
                    }
                } else {
                    row.status = CommandStatus::Failed;
                    if row.retry_count < MAX_RETRIES {
                        row.retry_count = row.retry_count + 1;
                    }
                }
                row.error_message = res.error_message;
                row.executed_at = Some(now);
                row.updated_at = now;
                self.commands.insert(i, row);
                proof {
                    assert(self@.commands =~= pre.commands.update(
                        i as int,
                        reported(pre.commands[i as int], res.success, res.error_message, now),
                    ));
                    assert(commands_wf(self@.commands));
                }
                if res.success {
                    match res.new_state {
                        Some(doc) => {
                            self.apply_command_outcome(device_id, doc, now);
                        },
                        None => {},
                    }
                }
                Ok(())
            },
        }
    }

    /// Re-queues a retriable command for another delivery attempt; the
    /// payload is never touched (the budget itself is spent by failure
    /// reports). A command that has exhausted its `MAX_RETRIES` budget, or
    /// was acknowledged, is an `InvalidTransition`: after the budget is
    /// spent the command stays permanently `Failed` and is surfaced to the
    /// caller, never re-queued.
    pub fn retry_command(&mut self, command_id: u128, now: i64) -> (r: Result<(), CoreError>)
        requires
            old(self).wf(),
        ensures
            final(self).wf(),
            unchanged_except_commands(old(self)@, final(self)@),
            match r {
                Ok(()) => exists|i: int|
                    0 <= i < old(self)@.commands.len() && (#[trigger] old(
                        self,
                    )@.commands[i]).id == command_id && spec_is_retriable(old(self)@.commands[i])
                        && final(self)@.commands == old(self)@.commands.update(
                        i,
                        Command {
                            status: CommandStatus::Queued,
                            updated_at: now,
                            ..old(self)@.commands[i]
                        },
                    ),
                Err(e) => final(self)@ == old(self)@ && ((e == CoreError::NotFound
                    && !spec_has_command(old(self)@.commands, command_id)) || (e
                    == CoreError::InvalidTransition && exists|i: int|
                    0 <= i < old(self)@.commands.len() && (#[trigger] old(
                        self,
                    )@.commands[i]).id == command_id && !spec_is_retriable(
                        old(self)@.commands[i],
                    ))),
            },
    {
        match self.find_command_index(command_id) {
            None => Err(CoreError::NotFound),
            Some(i) => {
                if !self.commands[i].is_retriable() {
                    return Err(CoreError::InvalidTransition);
                }
                let ghost pre = self@.commands;
                let mut row = self.commands.remove(i);
                row.status = CommandStatus::Queued;
                row.updated_at = now;
                self.commands.insert(i, row);
                proof {
                    assert(self@.commands =~= pre.update(
                        i as int,
                        Command {
                            status: CommandStatus::Queued,
                            updated_at: now,
                            ..pre[i as int]
                        },
                    ));
                    assert(commands_wf(self@.commands));
                }
                Ok(())
            },
        }
    }

    /// The delivery candidates for `user` at time `now`: the first
    /// `POLL_BATCH_SIZE` commands, oldest first, that are `Queued` and not
    /// stale.
    pub fn get_pending_commands(&self, user: u128, now: i64) -> (r: Vec<Command>)
        requires
            self.wf(),
        ensures
            r@ == pending_model(self@.commands, user, now, POLL_BATCH_SIZE as nat),
            forall|k: int, l: int|
                0 <= k <= l < r@.len() ==> (#[trigger] r@[k]).created_at <= (
                #[trigger] r@[l]).created_at,
    {
        proof {
            lemma_pending_model_ordered(self@.commands, user, now, POLL_BATCH_SIZE as nat);
        }
        let mut out: Vec<Command> = Vec::new();
        let mut i: usize = 0;
        while i < self.commands.len()
            invariant
                i <= self.commands.len(),
                out@ == pending_model(
                    self@.commands.subrange(0, i as int),
                    user,
                    now,
                    POLL_BATCH_SIZE as nat,
                ),
                out@.len() <= POLL_BATCH_SIZE,
            decreases self.commands.len() - i,
        {
            let ghost prefix = self@.commands.subrange(0, i as int);
            proof {
                assert(self@.commands.subrange(0, i + 1 as int) =~= prefix.push(
                    self@.commands[i as int],
                ));
                lemma_pending_model_push(
                    prefix,
                    self@.commands[i as int],
                    user,
                    now,
                    POLL_BATCH_SIZE as nat,
                );
                lemma_pending_model_len(prefix, user, now, POLL_BATCH_SIZE as nat);
            }
            let c = &self.commands[i];
            if out.len() < POLL_BATCH_SIZE && c.user_id == user && matches!(
                c.status,
                CommandStatus::Queued,
            ) && !c.should_expire(now) {
                out.push(self.commands[i].clone());
            }
            i = i + 1;
        }
        proof {
            assert(self@.commands.subrange(0, self@.commands.len() as int) =~= self@.commands);
        }
        out
    }

    /// Marks every stale `Queued` command `Failed`, persisting a
    /// human-readable message, and reports how many were marked. This is
    /// the cleanup side of cancellation-by-timeout; no explicit cancel
    /// exists.
    pub fn expire_stale_commands(&mut self, now: i64) -> (n: usize)
        requires
            old(self).wf(),
        ensures
            final(self).wf(),
            unchanged_except_commands(old(self)@, final(self)@),
            final(self)@.commands.len() == old(self)@.commands.len(),
            n == count_expired(old(self)@.commands, now),
            forall|i: int|
                0 <= i < old(self)@.commands.len() && spec_should_expire(
                    #[trigger] old(self)@.commands[i],
                    now,
                ) ==> exists|m: String|
                    m@ == "expired in queue"@ && final(self)@.commands[i] == expired_as(
                        old(self)@.commands[i],
                        m,
                        now,
                    ),
            forall|i: int|
                0 <= i < old(self)@.commands.len() && !spec_should_expire(
                    #[trigger] old(self)@.commands[i],
                    now,
                ) ==> final(self)@.commands[i] == old(self)@.commands[i],
    {
        let ghost orig = self@.commands;
        let mut n: usize = 0;
        let mut i: usize = 0;
        while i < self.commands.len()
            invariant
                old(self).wf(),
                i <= self@.commands.len(),
                self@.commands.len() == orig.len(),
                orig == old(self)@.commands,
                unchanged_except_commands(old(self)@, self@),
                n == count_expired(orig.subrange(0, i as int), now),
                n <= i,
                forall|j: int|
                    0 <= j < i && spec_should_expire(#[trigger] orig[j], now) ==> exists|m: String|
                        m@ == "expired in queue"@ && self@.commands[j] == expired_as(
                            orig[j],
                            m,
                            now,
                        ),
                forall|j: int|
                    0 <= j < i && !spec_should_expire(#[trigger] orig[j], now)
                        ==> self@.commands[j] == orig[j],
                forall|j: int| i <= j < orig.len() ==> self@.commands[j] == orig[j],
            decreases self.commands.len() - i,
        {
            let ghost prefix = orig.subrange(0, i as int);
            proof {
                assert(orig.subrange(0, i + 1 as int).drop_last() =~= prefix);
                assert(orig.subrange(0, i + 1 as int).last() == orig[i as int]);
                reveal_with_fuel(count_expired, 2);
            }
            if self.commands[i].should_expire(now) {
                let ghost pre = self@.commands;
                let mut row = self.commands.remove(i);
                row.status = CommandStatus::Failed;
                let msg = "expired in queue".to_owned();
                let ghost gm = msg;
                row.error_message = Some(msg);
                row.updated_at = now;
                self.commands.insert(i, row);
                proof {
                    assert(self@.commands.len() == pre.len());
                    assert(forall|j: int|
                        0 <= j < pre.len() && j != i ==> self@.commands[j] == pre[j]);
                    assert(self@.commands[i as int] == expired_as(orig[i as int], gm, now));
                    assert(gm@ == "expired in queue"@);
                }
                n = n + 1;
            }
            i = i + 1;
        }
        proof {
            assert(orig.subrange(0, orig.len() as int) =~= orig);
            assert forall|j: int| 0 <= j < orig.len() implies (
            #[trigger] self@.commands[j]).id == orig[j].id && self@.commands[j].created_at
                == orig[j].created_at by {
                if spec_should_expire(orig[j], now) {
                    let m = choose|m: String|
                        m@ == "expired in queue"@ && self@.commands[j] == expired_as(
                            orig[j],
                            m,
                            now,
                        );
                }
            }
            assert(commands_wf(self@.commands));
            assert(commands_ordered(self@.commands));
        }
        n
    }
}

} // verus!
