//! Where a replicate stands in the view of one client: being created,
//! created, or being deleted. The status only ever moves forward.

use vstd::prelude::*;

verus! {

/// The status of a replicate towards one client.
#[derive(Clone, Copy, PartialEq, Eq, Debug, Structural)]
pub enum LocalityStatus {
    /// The creation was queued and is not yet confirmed.
    Creating,
    /// The client confirmed the creation.
    Created,
    /// The deletion was queued and is not yet confirmed.
    Deleting,
}

/// What can happen to a replicate towards one client.
#[derive(Clone, Copy, PartialEq, Eq, Debug, Structural)]
pub enum LocalityEvent {
    /// The client confirmed the creation.
    CreateConfirmed,
    /// The replicate left the client's scope.
    DeleteMarked,
    /// The client confirmed the deletion.
    DeleteConfirmed,
}

/// How far along a status is; a replicate that is destroyed counts as 3.
pub open spec fn rank(status: Option<LocalityStatus>) -> nat {
    match status {
        Some(LocalityStatus::Creating) => 0,
        Some(LocalityStatus::Created) => 1,
        Some(LocalityStatus::Deleting) => 2,
        None => 3,
    }
}

/// The status after an event; none when the replicate is destroyed. An
/// event that does not apply to the status leaves it as it is: a deletion
/// marked while the creation is unconfirmed waits, and a confirmation that
/// was not asked for is ignored.
pub open spec fn status_after(status: LocalityStatus, event: LocalityEvent) -> Option<
    LocalityStatus,
> {
    match (status, event) {
        (LocalityStatus::Creating, LocalityEvent::CreateConfirmed) => Some(LocalityStatus::Created),
        (LocalityStatus::Created, LocalityEvent::DeleteMarked) => Some(LocalityStatus::Deleting),
        (LocalityStatus::Deleting, LocalityEvent::DeleteConfirmed) => None,
        _ => Some(status),
    }
}

/// Whether updates may be sent for a replicate in this status.
pub open spec fn updatable(status: LocalityStatus) -> bool {
    status == LocalityStatus::Created
}

impl LocalityStatus {
    /// The status after an event; none when the replicate is destroyed.
    pub fn after(self, event: LocalityEvent) -> (r: Option<LocalityStatus>)
        ensures
            r == status_after(self, event),
            rank(r) >= rank(Some(self)),
    {
        match (self, event) {
            (LocalityStatus::Creating, LocalityEvent::CreateConfirmed) => Some(
                LocalityStatus::Created,
            ),
            (LocalityStatus::Created, LocalityEvent::DeleteMarked) => Some(
                LocalityStatus::Deleting,
            ),
            (LocalityStatus::Deleting, LocalityEvent::DeleteConfirmed) => None,
            _ => Some(self),
        }
    }

    /// Whether updates may be sent for a replicate in this status.
    pub fn is_updatable(self) -> (b: bool)
        ensures
            b == updatable(self),
    {
        match self {
            LocalityStatus::Created => true,
            _ => false,
        }
    }
}

/// The status after a list of events, in order; none once the replicate is
/// destroyed.
pub open spec fn status_after_all(status: Option<LocalityStatus>, events: Seq<LocalityEvent>) -> Option<
    LocalityStatus,
>
    decreases events.len(),
{
    if events.len() == 0 {
        status
    } else {
        match status {
            Some(s) => status_after_all(status_after(s, events[0]), events.drop_first()),
            None => None,
        }
    }
}

/// No event moves a status backward, and the only way from `Creating` to
/// `Deleting` leads through `Created`.
pub proof fn lemma_status_moves_forward(status: LocalityStatus, event: LocalityEvent)
    ensures
        rank(status_after(status, event)) >= rank(Some(status)),
        rank(status_after(status, event)) <= rank(Some(status)) + 1,
{
}

/// Whatever events come in whatever order, the status never moves
/// backward.
pub proof fn lemma_status_never_regresses(status: Option<LocalityStatus>, events: Seq<LocalityEvent>)
    ensures
        rank(status_after_all(status, events)) >= rank(status),
    decreases events.len(),
{
    if events.len() > 0 {
        match status {
            Some(s) => {
                lemma_status_moves_forward(s, events[0]);
                lemma_status_never_regresses(status_after(s, events[0]), events.drop_first());
            },
            None => {},
        }
    }
}

} // verus!
