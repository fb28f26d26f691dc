//! The local side of calls: at most one active call and one held call,
//! and how the user's commands and the peers' signals move calls between
//! them. Sending the signals and starting or stopping media is the
//! caller's work; these functions decide what the state becomes and
//! report what ended or resumed.
use vstd::prelude::*;
use crate::contacts::{eq_ignore_ascii_case, same_ignoring_ascii_case};
use crate::ids::{CallId, DeviceId, IdentityId};
use crate::text::same_text;

verus! {

/// A device taking part in a call, and the endpoint it is reached at.
#[derive(Debug, Clone)]
pub struct CallPeer {
    pub identity_id: IdentityId,
    pub device_id: DeviceId,
    pub endpoint_id: String,
}

/// A call the local device takes part in.
#[derive(Debug, Clone)]
pub struct LocalCall {
    pub id: CallId,
    /// The contact or group the call is with, as the user named it.
    pub label: String,
    pub recipients: Vec<CallPeer>,
    pub started_at_unix: i64,
    /// When the call connected, in milliseconds of the caller's monotonic
    /// clock; none while it still rings.
    pub connected_at_ms: Option<u64>,
}

/// The calls of the local device.
#[derive(Debug)]
pub struct Calls {
    pub active: Option<LocalCall>,
    pub held: Option<LocalCall>,
}

/// Why a call command was refused.
#[derive(Debug, Clone, Copy, PartialEq, Eq)]
pub enum CallError {
    /// A call is active: hold it before starting another.
    CallActive,
    /// Only one call can be held.
    AlreadyHolding,
    /// No active call has that identifier.
    ActiveNotFound,
    /// No held call has that identifier.
    HeldNotFound,
    /// Media needs an active, joined call with the named contact or group.
    NotInCall,
    /// The device does not take part in the active call.
    ParticipantNotFound,
}

/// Whether the active call has the identifier.
pub open spec fn is_active_call(calls: Calls, id: CallId) -> bool {
    calls.active matches Some(c) && c.id == id
}

/// Whether the held call has the identifier.
pub open spec fn is_held_call(calls: Calls, id: CallId) -> bool {
    calls.held matches Some(c) && c.id == id
}

/// The calls once the active one is put on hold: the call held before is
/// given up.
pub open spec fn after_hold(calls: Calls) -> Calls {
    Calls { active: None, held: calls.active }
}

/// The calls once the held one is resumed.
pub open spec fn after_resume(calls: Calls) -> Calls {
    Calls { active: calls.held, held: None }
}

impl Calls {
    /// No calls.
    pub fn new() -> (r: Self)
        ensures
            r.active is None,
            r.held is None,
    {
        Calls { active: None, held: None }
    }

    /// Starts a call with `label`'s recipients; a ringing call connects
    /// when a peer joins, a call without ringing at once, at `now_ms`.
    pub fn start(
        &mut self,
        id: CallId,
        label: String,
        recipients: Vec<CallPeer>,
        started_at_unix: i64,
        ring: bool,
        now_ms: u64,
    ) -> (r: Result<(), CallError>)
        ensures
            old(self).active is Some ==> r == Err::<(), CallError>(CallError::CallActive) && final(self).active
                == old(self).active && final(self).held == old(self).held,
            old(self).active is None ==> r is Ok && final(self).held == old(self).held && final(self).active == Some(
                LocalCall {
                    id,
                    label,
                    recipients,
                    started_at_unix,
                    connected_at_ms: if ring {
                        None
                    } else {
                        Some(now_ms)
                    },
                },
            ),
    {
        if self.active.is_some() {
            return Err(CallError::CallActive);
        }
        self.active = Some(
            LocalCall {
                id,
                label,
                recipients,
                started_at_unix,
                connected_at_ms: if ring {
                    None
                } else {
                    Some(now_ms)
                },
            },
        );
        Ok(())
    }

    /// Joins call `id`, connected at `now_ms`. Another active call is held
    /// first, unless a call is held already; answers the identifier of the
    /// call that was put on hold, if one was.
    pub fn join(
        &mut self,
        id: CallId,
        label: String,
        recipients: Vec<CallPeer>,
        started_at_unix: i64,
        now_ms: u64,
    ) -> (r: Result<Option<CallId>, CallError>)
        ensures
            ({
                let joined = LocalCall { id, label, recipients, started_at_unix, connected_at_ms: Some(now_ms) };
                match old(self).active {
                    Some(a) => if a.id != id {
                        if old(self).held is Some {
                            r == Err::<Option<CallId>, CallError>(CallError::AlreadyHolding) && final(self).active
                                == old(self).active && final(self).held == old(self).held
                        } else {
                            r == Ok::<Option<CallId>, CallError>(Some(a.id)) && final(self).held == Some(a)
                                && final(self).active == Some(joined)
                        }
                    } else {
                        r == Ok::<Option<CallId>, CallError>(None) && final(self).held == old(self).held
                            && final(self).active == Some(joined)
                    },
                    None => r == Ok::<Option<CallId>, CallError>(None) && final(self).held == old(self).held
                        && final(self).active == Some(joined),
                }
            }),
    {
        let mut put_on_hold: Option<CallId> = None;
        let other = match &self.active {
            Some(a) => !a.id.same(&id),
            None => false,
        };
        if other {
            if self.held.is_some() {
                return Err(CallError::AlreadyHolding);
            }
            let previous = self.active.take();
            match previous {
                Some(p) => {
                    put_on_hold = Some(p.id);
                    self.held = Some(p);
                },
                None => {},
            }
        }
        self.active = Some(LocalCall { id, label, recipients, started_at_unix, connected_at_ms: Some(now_ms) });
        Ok(put_on_hold)
    }

    /// Puts the active call `id` on hold, in place of any held call.
    pub fn hold(&mut self, id: CallId) -> (r: Result<(), CallError>)
        ensures
            !is_active_call(*old(self), id) ==> r == Err::<(), CallError>(CallError::ActiveNotFound)
                && final(self).active == old(self).active && final(self).held == old(self).held,
            is_active_call(*old(self), id) ==> r is Ok && *final(self) == after_hold(*old(self)),
    {
        let matches = match &self.active {
            Some(a) => a.id.same(&id),
            None => false,
        };
        if !matches {
            return Err(CallError::ActiveNotFound);
        }
        self.held = self.active.take();
        Ok(())
    }

    /// Resumes the held call `id` while no call is active. Asking for
    /// another call than the held one gives up the held call.
    pub fn resume(&mut self, id: CallId) -> (r: Result<(), CallError>)
        ensures
            old(self).active is Some ==> r == Err::<(), CallError>(CallError::CallActive) && final(self).active
                == old(self).active && final(self).held == old(self).held,
            old(self).active is None && !is_held_call(*old(self), id) ==> r == Err::<(), CallError>(
                CallError::HeldNotFound,
            ) && final(self).active is None && final(self).held is None,
            old(self).active is None && is_held_call(*old(self), id) ==> r is Ok && *final(self) == after_resume(
                *old(self),
            ),
    {
        if self.active.is_some() {
            return Err(CallError::CallActive);
        }
        let held = self.held.take();
        match held {
            Some(call) => {
                if call.id.same(&id) {
                    self.active = Some(call);
                    Ok(())
                } else {
                    Err(CallError::HeldNotFound)
                }
            },
            None => Err(CallError::HeldNotFound),
        }
    }

    /// Leaves call `id`: the active call ends, or the held one is dropped;
    /// then a held call is resumed if none is active. Answers the call that
    /// ended, if the active one did, and the identifier of the call
    /// resumed, if one was.
    pub fn leave(&mut self, id: CallId) -> (r: (Option<LocalCall>, Option<CallId>))
        ensures
            ({
                let (active1, held1, ended) = if is_active_call(*old(self), id) {
                    (None::<LocalCall>, old(self).held, old(self).active)
                } else if is_held_call(*old(self), id) {
                    (old(self).active, None::<LocalCall>, None::<LocalCall>)
                } else {
                    (old(self).active, old(self).held, None::<LocalCall>)
                };
                &&& r.0 == ended
                &&& if active1 is None && held1 is Some {
                    final(self).active == held1 && final(self).held is None && r.1 == Some(held1.unwrap().id)
                } else {
                    final(self).active == active1 && final(self).held == held1 && r.1 is None
                }
            }),
    {
        let is_active = match &self.active {
            Some(a) => a.id.same(&id),
            None => false,
        };
        let mut ended: Option<LocalCall> = None;
        if is_active {
            ended = self.active.take();
        } else {
            let is_held = match &self.held {
                Some(h) => h.id.same(&id),
                None => false,
            };
            if is_held {
                self.held = None;
            }
        }
        let mut resumed: Option<CallId> = None;
        if self.active.is_none() {
            let held = self.held.take();
            match held {
                Some(call) => {
                    resumed = Some(call.id);
                    self.active = Some(call);
                },
                None => {},
            }
        }
        (ended, resumed)
    }

    /// A peer joined call `id` at `now_ms`: the active call connects, if
    /// it has not yet. Answers whether it is the active call.
    pub fn peer_joined(&mut self, id: CallId, now_ms: u64) -> (r: bool)
        ensures
            r == is_active_call(*old(self), id),
            final(self).held == old(self).held,
            !r ==> final(self).active == old(self).active,
            r ==> final(self).active == Some(
                LocalCall {
                    connected_at_ms: match old(self).active.unwrap().connected_at_ms {
                        Some(t) => Some(t),
                        None => Some(now_ms),
                    },
                    ..old(self).active.unwrap()
                },
            ),
    {
        let is_active = match &self.active {
            Some(a) => a.id.same(&id),
            None => false,
        };
        if !is_active {
            return false;
        }
        let current = self.active.take();
        match current {
            Some(call) => {
                let connected_at_ms = match call.connected_at_ms {
                    Some(t) => Some(t),
                    None => Some(now_ms),
                };
                self.active = Some(
                    LocalCall {
                        id: call.id,
                        label: call.label,
                        recipients: call.recipients,
                        started_at_unix: call.started_at_unix,
                        connected_at_ms,
                    },
                );
            },
            None => {},
        }
        true
    }

    /// A peer rejected call `id`: the active call ends if it is that one.
    /// Answers the ended call.
    pub fn peer_rejected(&mut self, id: CallId) -> (r: Option<LocalCall>)
        ensures
            is_active_call(*old(self), id) ==> r == old(self).active && final(self).active is None,
            !is_active_call(*old(self), id) ==> r is None && final(self).active == old(self).active,
            final(self).held == old(self).held,
    {
        let is_active = match &self.active {
            Some(a) => a.id.same(&id),
            None => false,
        };
        if is_active {
            self.active.take()
        } else {
            None
        }
    }

    /// The peer at `endpoint` left call `id`: it leaves the active call's
    /// recipients, and the call ends when none is left. Answers whether it
    /// ended.
    pub fn peer_left(&mut self, id: CallId, endpoint: &str) -> (r: bool)
        ensures
            final(self).held == old(self).held,
            !is_active_call(*old(self), id) ==> !r && final(self).active == old(self).active,
            is_active_call(*old(self), id) ==> {
                let remaining = old(self).active.unwrap().recipients@.filter(
                    |p: CallPeer| p.endpoint_id@ != endpoint@,
                );
                &&& r == (remaining.len() == 0)
                &&& r ==> final(self).active is None
                &&& !r ==> (final(self).active matches Some(c) && c.id == id && c.recipients@ == remaining
                    && c.label == old(self).active.unwrap().label && c.started_at_unix
                    == old(self).active.unwrap().started_at_unix && c.connected_at_ms
                    == old(self).active.unwrap().connected_at_ms)
            },
    {
        let is_active = match &self.active {
            Some(a) => a.id.same(&id),
            None => false,
        };
        if !is_active {
            return false;
        }
        let current = self.active.take();
        match current {
            Some(call) => {
                let remaining = peers_without(&call.recipients, endpoint);
                if remaining.len() == 0 {
                    true
                } else {
                    self.active = Some(
                        LocalCall {
                            id: call.id,
                            label: call.label,
                            recipients: remaining,
                            started_at_unix: call.started_at_unix,
                            connected_at_ms: call.connected_at_ms,
                        },
                    );
                    false
                }
            },
            None => false,
        }
    }

    /// Whether media of call `id` is played: only that of the active call.
    pub fn plays_media_of(&self, id: CallId) -> (r: bool)
        ensures
            r == is_active_call(*self, id),
    {
        match &self.active {
            Some(a) => a.id.same(&id),
            None => false,
        }
    }

    /// The recipients media of call `id` goes to, for the contact or group
    /// `label`: those of the active call, when it is that call, joined with
    /// that label (letter case aside).
    pub fn media_recipients(&self, id: CallId, label: &str) -> (r: Result<&Vec<CallPeer>, CallError>)
        ensures
            (self.active matches Some(c) && c.id == id && same_ignoring_ascii_case(c.label@, label@)) ==> (r matches Ok(
                v,
            ) && *v == self.active.unwrap().recipients),
            !(self.active matches Some(c) && c.id == id && same_ignoring_ascii_case(c.label@, label@)) ==> r
                == Err::<&Vec<CallPeer>, CallError>(CallError::NotInCall),
    {
        match &self.active {
            Some(c) => {
                if c.id.same(&id) && eq_ignore_ascii_case(c.label.as_str(), label) {
                    Ok(&c.recipients)
                } else {
                    Err(CallError::NotInCall)
                }
            },
            None => Err(CallError::NotInCall),
        }
    }

    /// Checks that `device` takes part in the active call `id`, before its
    /// volume is set.
    pub fn check_participant(&self, id: CallId, device: DeviceId) -> (r: Result<(), CallError>)
        ensures
            r is Ok <==> (self.active matches Some(c) && c.id == id && exists|i: int|
                0 <= i < c.recipients@.len() && (#[trigger] c.recipients@[i]).device_id == device),
            r is Err ==> r == Err::<(), CallError>(CallError::ParticipantNotFound),
    {
        match &self.active {
            Some(c) => {
                if !c.id.same(&id) {
                    return Err(CallError::ParticipantNotFound);
                }
                let mut i: usize = 0;
                while i < c.recipients.len()
                    invariant
                        i <= c.recipients@.len(),
                        self.active == Some(*c),
                        c.id == id,
                        forall|j: int| 0 <= j < i ==> (#[trigger] c.recipients@[j]).device_id != device,
                    decreases c.recipients@.len() - i,
                {
                    if c.recipients[i].device_id.same(&device) {
                        assert(c.recipients@[i as int].device_id == device);
                        return Ok(());
                    }
                    i = i + 1;
                }
                Err(CallError::ParticipantNotFound)
            },
            None => Err(CallError::ParticipantNotFound),
        }
    }
}

fn peers_without(peers: &Vec<CallPeer>, endpoint: &str) -> (r: Vec<CallPeer>)
    ensures
        r@ == peers@.filter(|p: CallPeer| p.endpoint_id@ != endpoint@),
{
    let mut out: Vec<CallPeer> = Vec::new();
    let mut i: usize = 0;
    while i < peers.len()
        invariant
            i <= peers@.len(),
            out@ == peers@.take(i as int).filter(|p: CallPeer| p.endpoint_id@ != endpoint@),
        decreases peers@.len() - i,
    {
        proof {
            reveal(Seq::filter);
            assert(peers@.take(i as int + 1).drop_last() =~= peers@.take(i as int));
        }
        if !same_text(peers[i].endpoint_id.as_str(), endpoint) {
            let p = &peers[i];
            out.push(CallPeer { identity_id: p.identity_id, device_id: p.device_id, endpoint_id: p.endpoint_id.clone() });
        }
        i = i + 1;
    }
    assert(peers@.take(i as int) =~= peers@);
    out
}

/// How long an ended call was connected at `now_ms`, in milliseconds: none
/// if it never connected.
pub fn call_duration_ms(call: &LocalCall, now_ms: u64) -> (r: u64)
    ensures
        r == match call.connected_at_ms {
            Some(t) => if now_ms >= t {
                (now_ms - t) as u64
            } else {
                0
            },
            None => 0,
        },
{
    match call.connected_at_ms {
        Some(t) => now_ms.saturating_sub(t),
        None => 0,
    }
}

/// Holding the active call and resuming it gives the same call back; a
/// call that was held before is no longer held.
pub proof fn law_hold_then_resume_restores(calls: Calls, id: CallId)
    requires
        is_active_call(calls, id),
    ensures
        is_held_call(after_hold(calls), id),
        after_resume(after_hold(calls)).active == calls.active,
        after_resume(after_hold(calls)).held is None,
{
}

} // verus!
