//! What the server writes to its statistics files.

use vstd::prelude::*;

use crate::addr::SocketAddr;
use crate::path::{PathStats, NANOS_PER_MILLI};

verus! {

/// The round-trip time, in milliseconds, that the transport assumes before it has
/// measured one.
pub const INITIAL_RTT_MS: u128 = 333;

/// One line about a path. Times are in milliseconds.
#[derive(Clone, Copy, Debug, PartialEq, Eq)]
pub struct PathStatsRecord {
    pub elapsed: u128,
    pub local: SocketAddr,
    pub remote: SocketAddr,
    pub sent_bytes: u64,
    pub recv_bytes: u64,
    pub cwnd: usize,
    pub bif: usize,
    pub rtt: u128,
    pub rttvar: u128,
    pub quantum: usize,
}

/// Whether the round-trip time of a path still is the transport's assumption.
pub open spec fn unmeasured(p: PathStats) -> bool {
    p.rtt / NANOS_PER_MILLI == INITIAL_RTT_MS
}

/// The line about a path. A round-trip time that is only assumed is given as zero,
/// and so is its variation.
pub open spec fn path_record_spec(elapsed: u128, p: PathStats, quantum: usize) -> PathStatsRecord {
    PathStatsRecord {
        elapsed,
        local: p.local_addr,
        remote: p.peer_addr,
        sent_bytes: p.sent_bytes,
        recv_bytes: p.recv_bytes,
        cwnd: p.cwnd,
        bif: p.bytes_in_flight,
        rtt: if unmeasured(p) {
            0
        } else {
            p.rtt / NANOS_PER_MILLI
        },
        rttvar: if unmeasured(p) {
            0
        } else {
            p.rttvar / NANOS_PER_MILLI
        },
        quantum,
    }
}

impl PathStatsRecord {
    /// The line about a path, `elapsed` milliseconds after the server started.
    pub fn new(elapsed: u128, p: &PathStats, quantum: usize) -> (record: PathStatsRecord)
        ensures
            record == path_record_spec(elapsed, *p, quantum),
    {
        let ms: u128 = p.rtt / NANOS_PER_MILLI;
        let (rtt, rttvar): (u128, u128) = if ms == INITIAL_RTT_MS {
            (0, 0)
        } else {
            (ms, p.rttvar / NANOS_PER_MILLI)
        };
        PathStatsRecord {
            elapsed,
            local: p.local_addr,
            remote: p.peer_addr,
            sent_bytes: p.sent_bytes,
            recv_bytes: p.recv_bytes,
            cwnd: p.cwnd,
            bif: p.bytes_in_flight,
            rtt,
            rttvar,
            quantum,
        }
    }
}

/// The offsets of the last stream that reports some; zeros where none does.
pub open spec fn last_offsets_spec(offsets: Seq<Option<(u64, u64)>>) -> (u64, u64)
    decreases offsets.len(),
{
    if offsets.len() == 0 {
        (0, 0)
    } else {
        match offsets.last() {
            Some(pair) => pair,
            None => last_offsets_spec(offsets.drop_last()),
        }
    }
}

/// The offsets of the last stream that reports some; zeros where none does.
pub fn last_offsets(offsets: &Vec<Option<(u64, u64)>>) -> (pair: (u64, u64))
    ensures
        pair == last_offsets_spec(offsets@),
{
    let mut i: usize = offsets.len();
    assert(offsets@.take(i as int) =~= offsets@);
    while i > 0
        invariant
            i <= offsets@.len(),
            last_offsets_spec(offsets@) == last_offsets_spec(offsets@.take(i as int)),
        decreases i,
    {
        let ghost front = offsets@.take(i as int);
        assert(front.last() == offsets@[i - 1]);
        assert(front.drop_last() =~= offsets@.take(i - 1));
        i = i - 1;
        if let Some(pair) = offsets[i] {
            return pair;
        }
    }
    (0, 0)
}

/// A line about a path repeats what the path reports. Its times are in milliseconds, and
/// both zero exactly where the round-trip time is the 333 milliseconds that stand for
/// none, or are themselves below a millisecond.
pub proof fn law_path_record(elapsed: u128, p: PathStats, quantum: usize)
    ensures
        ({
            let r = path_record_spec(elapsed, p, quantum);
            &&& r.elapsed == elapsed && r.quantum == quantum
            &&& r.local == p.local_addr && r.remote == p.peer_addr
            &&& r.sent_bytes == p.sent_bytes && r.recv_bytes == p.recv_bytes
            &&& r.cwnd == p.cwnd && r.bif == p.bytes_in_flight
            &&& 333_000_000 <= p.rtt < 334_000_000 ==> r.rtt == 0 && r.rttvar == 0
            &&& p.rtt < 333_000_000 || p.rtt >= 334_000_000 ==> {
                &&& 1_000_000 * r.rtt <= p.rtt < 1_000_000 * (r.rtt + 1)
                &&& 1_000_000 * r.rttvar <= p.rttvar < 1_000_000 * (r.rttvar + 1)
            }
        }),
{
}

/// The offsets of the last stream that reports some count, whatever streams come before
/// it and however many follow that report none.
pub proof fn law_last_offsets(
    front: Seq<Option<(u64, u64)>>,
    pair: (u64, u64),
    silent: Seq<Option<(u64, u64)>>,
)
    requires
        forall|i: int| 0 <= i < silent.len() ==> (#[trigger] silent[i]) is None,
    ensures
        last_offsets_spec(silent) == (0u64, 0u64),
        last_offsets_spec(front.push(Some(pair)) + silent) == pair,
    decreases silent.len(),
{
    if silent.len() == 0 {
        assert(front.push(Some(pair)) + silent =~= front.push(Some(pair)));
    } else {
        law_last_offsets(front, pair, silent.drop_last());
        assert((front.push(Some(pair)) + silent).drop_last() =~= front.push(Some(pair))
            + silent.drop_last());
        assert(silent.last() == silent[silent.len() - 1]);
    }
}

} // verus!
