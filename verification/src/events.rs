//! What the endpoints do when the transport reports a change of a path.

use vstd::prelude::*;

use crate::path::PathId;

verus! {

/// A change of a path.
#[derive(Debug)]
pub enum PathEvent {
    /// The peer uses a path that was not seen before.
    New(PathId),
    Validated(PathId),
    FailedValidation(PathId),
    /// The path is unusable from now on, with an error code and a reason.
    Closed(PathId, u64, Vec<u8>),
    /// The connection ID with this number moved from one path to another.
    ReusedSourceConnectionId(u64, PathId, PathId),
    /// The peer now sends on this path.
    PeerMigrated(PathId),
    /// The peer asks that the path be given this status.
    PeerPathStatus(PathId, u64),
}

/// What to ask of the transport.
#[derive(Clone, Copy, Debug, PartialEq, Eq)]
pub enum PathAction {
    Nothing,
    /// Find out whether the path works.
    Probe(PathId),
    /// Start sending on the path.
    Activate(PathId),
    /// Give the path the status that the peer asked for.
    FollowStatus(PathId, u64),
}

impl PathEvent {
    /// Whether only a server can see the event.
    pub open spec fn server_only_spec(self) -> bool {
        self is New || self is PeerMigrated
    }

    /// Whether only a server can see the event.
    pub fn server_only(&self) -> (b: bool)
        ensures
            b == self.server_only_spec(),
            b <==> self is New || self is PeerMigrated,
    {
        match self {
            PathEvent::New(_) => true,
            PathEvent::PeerMigrated(_) => true,
            _ => false,
        }
    }
}

/// What the server does: it probes new paths, activates validated ones, and
/// follows the peer's wishes about their status.
pub fn server_path_action(event: &PathEvent) -> (action: PathAction)
    ensures
        event matches PathEvent::New(id) ==> action == PathAction::Probe(*id),
        event matches PathEvent::Validated(id) ==> action == PathAction::Activate(*id),
        event matches PathEvent::PeerPathStatus(id, status) ==> action == PathAction::FollowStatus(
            *id,
            *status,
        ),
        event is FailedValidation || event is Closed || event is ReusedSourceConnectionId
            || event is PeerMigrated ==> action == PathAction::Nothing,
{
    match event {
        PathEvent::New(id) => PathAction::Probe(*id),
        PathEvent::Validated(id) => PathAction::Activate(*id),
        PathEvent::FailedValidation(_) => PathAction::Nothing,
        PathEvent::Closed(_, _, _) => PathAction::Nothing,
        PathEvent::ReusedSourceConnectionId(_, _, _) => PathAction::Nothing,
        PathEvent::PeerMigrated(_) => PathAction::Nothing,
        PathEvent::PeerPathStatus(id, status) => PathAction::FollowStatus(*id, *status),
    }
}

/// What the client does: it activates validated paths and does nothing else.
pub fn client_path_action(event: &PathEvent) -> (action: PathAction)
    requires
        !event.server_only_spec(),
    ensures
        event matches PathEvent::Validated(id) ==> action == PathAction::Activate(*id),
        !(event is Validated) ==> action == PathAction::Nothing,
{
    match event {
        PathEvent::Validated(id) => PathAction::Activate(*id),
        _ => PathAction::Nothing,
    }
}

} // verus!
