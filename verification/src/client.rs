//! The client's course: it fetches one file over every path it has, and leaves.

use vstd::prelude::*;

use crate::addr::{IpAddr, SocketAddr};

verus! {

/// The stream on which the client sends its request.
pub const HTTP_REQ_STREAM_ID: u64 = 4;

/// The client waits for this many paths before it sends its request.
pub const MIN_PATHS: usize = 2;

/// How far the client has come.
#[derive(Clone, Copy, Debug, PartialEq, Eq)]
pub struct ClientSession {
    /// Whether the request was sent.
    pub req_sent: bool,
    /// The sockets from which the server has been probed, the first ones.
    pub probed_paths: usize,
    /// The sockets that the client has.
    pub sockets: usize,
}

impl ClientSession {
    /// The connection starts on the first socket; no more sockets are probed from
    /// than there are.
    pub open spec fn wf(&self) -> bool {
        1 <= self.probed_paths <= self.sockets
    }

    /// Starts a session on the first of some sockets.
    pub fn new(sockets: usize) -> (session: ClientSession)
        requires
            sockets >= 1,
        ensures
            session.wf(),
            session == (ClientSession { req_sent: false, probed_paths: 1, sockets }),
    {
        ClientSession { req_sent: false, probed_paths: 1, sockets }
    }

    /// Whether to send the request: once, when the connection is established and
    /// has enough paths.
    pub open spec fn request_due_spec(&self, established: bool, path_count: usize) -> bool {
        established && !self.req_sent && path_count >= MIN_PATHS
    }

    /// Decides whether to send the request now, and if so counts it as sent.
    pub fn take_request(&mut self, established: bool, path_count: usize) -> (due: bool)
        requires
            old(self).wf(),
        ensures
            final(self).wf(),
            due == old(self).request_due_spec(established, path_count),
            due <==> established && !old(self).req_sent && path_count >= 2,
            *final(self) == (ClientSession { req_sent: old(self).req_sent || due, ..*old(self) }),
    {
        if established && !self.req_sent && path_count >= MIN_PATHS {
            self.req_sent = true;
            true
        } else {
            false
        }
    }

    /// The socket to probe from next, if one is left and the peer has a connection
    /// ID to spare.
    pub fn probe_due(&self, available_dcids: usize) -> (socket: Option<usize>)
        requires
            self.wf(),
        ensures
            socket == if self.probed_paths < self.sockets && available_dcids > 0 {
                Some(self.probed_paths)
            } else {
                None
            },
            socket matches Some(i) ==> i < self.sockets,
    {
        if self.probed_paths < self.sockets && available_dcids > 0 {
            Some(self.probed_paths)
        } else {
            None
        }
    }

    /// Takes note that the probe from the next socket was started.
    pub fn probe_started(&mut self)
        requires
            old(self).wf(),
            old(self).probed_paths < old(self).sockets,
        ensures
            final(self).wf(),
            *final(self) == (ClientSession {
                probed_paths: (old(self).probed_paths + 1) as usize,
                ..*old(self)
            }),
    {
        self.probed_paths = self.probed_paths + 1;
    }
}

/// Whether the end of a stream means that the response is complete.
pub fn response_complete(stream_id: u64, fin: bool) -> (b: bool)
    ensures
        b == (stream_id == HTTP_REQ_STREAM_ID && fin),
        b <==> stream_id == 4 && fin,
{
    stream_id == HTTP_REQ_STREAM_ID && fin
}

/// The request is sent at most once: after it is taken, it is never due again.
pub proof fn law_request_is_sent_once(
    session: ClientSession,
    established: bool,
    path_count: usize,
    later: bool,
    later_count: usize,
)
    requires
        session.request_due_spec(established, path_count),
    ensures
        !(ClientSession { req_sent: true, ..session }).request_due_spec(later, later_count),
{
}

/// What became of a packet on a path.
#[derive(Clone, Copy, Debug, PartialEq, Eq, Structural)]
pub enum PacketOutcome {
    /// The transport has none for the path.
    Done,
    /// The transport cannot make one.
    Failed,
    /// The socket took it.
    Sent,
    /// The socket has no room for it.
    WouldBlock,
}

/// What to do after a packet on a path.
#[derive(Clone, Copy, Debug, PartialEq, Eq, Structural)]
pub enum PathStep {
    /// Send another packet on the path.
    SamePath,
    /// Go on to the next path.
    NextPath,
    /// Close the connection, and go on to the next path.
    CloseAndNextPath,
}

/// What to do after a packet on a path: the client drains one path after the
/// other.
pub fn path_step(outcome: PacketOutcome) -> (step: PathStep)
    ensures
        step == match outcome {
            PacketOutcome::Sent => PathStep::SamePath,
            PacketOutcome::Done | PacketOutcome::WouldBlock => PathStep::NextPath,
            PacketOutcome::Failed => PathStep::CloseAndNextPath,
        },
{
    match outcome {
        PacketOutcome::Sent => PathStep::SamePath,
        PacketOutcome::Done => PathStep::NextPath,
        PacketOutcome::WouldBlock => PathStep::NextPath,
        PacketOutcome::Failed => PathStep::CloseAndNextPath,
    }
}

fn same_bytes(a: &[u8], b: &[u8]) -> (eq: bool)
    ensures
        eq == (a@ == b@),
{
    if a.len() != b.len() {
        return false;
    }
    let mut i: usize = 0;
    while i < a.len()
        invariant
            i <= a@.len(),
            a@.len() == b@.len(),
            forall|j: int| 0 <= j < i ==> a@[j] == b@[j],
        decreases a@.len() - i,
    {
        if a[i] != b[i] {
            return false;
        }
        i = i + 1;
    }
    assert(a@ =~= b@);
    true
}

fn same_addr(a: &SocketAddr, b: &SocketAddr) -> (eq: bool)
    ensures
        eq == (a == b),
{
    let same_ip: bool = match (&a.ip, &b.ip) {
        (IpAddr::V4(x), IpAddr::V4(y)) => same_bytes(x.as_slice(), y.as_slice()),
        (IpAddr::V6(x), IpAddr::V6(y)) => same_bytes(x.as_slice(), y.as_slice()),
        _ => false,
    };
    proof {
        if same_ip {
            crate::addr::lemma_octets_injective(a.ip, b.ip);
        }
    }
    same_ip && a.port == b.port && a.flowinfo == b.flowinfo && a.scope_id == b.scope_id
}

/// The socket that is bound to an address; the last one where several are.
pub fn socket_for(bound: &Vec<SocketAddr>, addr: &SocketAddr) -> (socket: Option<usize>)
    ensures
        match socket {
            Some(i) => {
                &&& i < bound@.len()
                &&& bound@[i as int] == addr
                &&& forall|j: int| i < j < bound@.len() ==> bound@[j] != addr
            },
            None => !bound@.contains(*addr),
        },
{
    let mut i: usize = bound.len();
    while i > 0
        invariant
            i <= bound@.len(),
            forall|j: int| i <= j < bound@.len() ==> bound@[j] != addr,
        decreases i,
    {
        i = i - 1;
        if same_addr(&bound[i], addr) {
            return Some(i);
        }
    }
    None
}

/// The request is due exactly where it was not sent yet, the connection is established,
/// and two paths or more are there.
pub proof fn law_request_is_due(session: ClientSession, established: bool, path_count: usize)
    ensures
        session.request_due_spec(established, path_count) <==> !session.req_sent && established
            && path_count >= 2,
{
}

} // verus!
