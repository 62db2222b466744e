//! The webhook upsert protocol: edit the remembered sticky message when it
//! still exists, else post a new one. Every step is a decision on plain
//! values; the caller performs the requests.

use vstd::prelude::*;

use crate::snowflake::Snowflake;

verus! {

/// A request of the protocol, to be sent to the webhook.
#[derive(Clone, Copy, Debug, PartialEq, Eq, Structural)]
pub enum UpsertAction {
    /// Ask whether message `0` still exists (`GET {webhook}/messages/{id}`).
    Probe(Snowflake),
    /// Replace the content of message `0` (`PATCH {webhook}/messages/{id}`).
    Patch(Snowflake),
    /// Post a new message (`POST {webhook}`), asking the server to answer
    /// only once the message is posted when `wait` holds.
    Create { wait: bool },
}

/// A remote answer other than success: its status and body.
#[derive(Debug)]
pub struct RemoteApiError {
    pub status: u16,
    pub body: String,
}

/// Whether an HTTP status is a success (2xx).
pub open spec fn is_success(status: u16) -> bool {
    200 <= status && status <= 299
}

/// The first request of an upsert: probe the remembered message, or post a
/// new one when none is remembered.
pub open spec fn first_action_spec(remembered: Option<Snowflake>) -> UpsertAction {
    match remembered {
        Some(id) => UpsertAction::Probe(id),
        None => UpsertAction::Create { wait: true },
    }
}

/// The request after probing message `id`: edit it when the probe
/// succeeded, else post a new message.
pub open spec fn after_probe_spec(id: Snowflake, probe_status: u16) -> UpsertAction {
    if is_success(probe_status) {
        UpsertAction::Patch(id)
    } else {
        UpsertAction::Create { wait: true }
    }
}

/// The request that carries the content, given the remembered message and,
/// when there is one, the status its probe got.
pub open spec fn send_action(remembered: Option<Snowflake>, probe_status: u16) -> UpsertAction {
    match first_action_spec(remembered) {
        UpsertAction::Probe(id) => after_probe_spec(id, probe_status),
        other => other,
    }
}

/// Decides the first request of an upsert.
pub fn first_action(remembered: Option<Snowflake>) -> (r: UpsertAction)
    ensures
        r == first_action_spec(remembered),
{
    match remembered {
        Some(id) => UpsertAction::Probe(id),
        None => UpsertAction::Create { wait: true },
    }
}

/// Decides the request that follows the probe of message `id`.
pub fn after_probe(id: Snowflake, probe_status: u16) -> (r: UpsertAction)
    ensures
        r == after_probe_spec(id, probe_status),
{
    if 200 <= probe_status && probe_status <= 299 {
        UpsertAction::Patch(id)
    } else {
        UpsertAction::Create { wait: true }
    }
}

/// The request of a one-off post, such as the role ping: always a new
/// message, whatever message is remembered.
pub fn post_action() -> (r: UpsertAction)
    ensures
        r == (UpsertAction::Create { wait: false }),
{
    UpsertAction::Create { wait: false }
}

/// Checks the answer to a patch or a create: anything but a success is an
/// error for the whole run, with no retry.
pub fn check_status(status: u16, body: String) -> (r: Result<(), RemoteApiError>)
    ensures
        r is Ok <==> is_success(status),
        r matches Err(e) ==> e.status == status && e.body@ == body@,
{
    if 200 <= status && status <= 299 {
        Ok(())
    } else {
        Err(RemoteApiError { status, body })
    }
}

/// A remembered message that the probe reports missing is never patched:
/// the content goes out as a new message.
pub proof fn lemma_missing_sticky_creates(id: Snowflake, probe_status: u16)
    requires
        !is_success(probe_status),
    ensures
        send_action(Some(id), probe_status) == (UpsertAction::Create { wait: true }),
        !(send_action(Some(id), probe_status) is Patch),
{
}

/// Only a message that was remembered and found is ever patched, and it is
/// the remembered one.
pub proof fn lemma_patch_only_found(remembered: Option<Snowflake>, probe_status: u16)
    ensures
        send_action(remembered, probe_status) matches UpsertAction::Patch(id) ==> remembered
            == Some(id) && is_success(probe_status),
        !(send_action(remembered, probe_status) is Probe),
{
}

} // verus!
