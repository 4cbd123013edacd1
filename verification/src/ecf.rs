//! The earliest-completion-first scheduler. It keeps to the fastest path while
//! that has room, and otherwise weighs waiting for it against using the slowest.

use vstd::prelude::*;

use crate::path::{
    all_sampled, any_eligible, check_offsets, fastest, fastest_spec, first_unsampled, is_fastest,
    is_slowest, lemma_fastest_exists, lemma_fastest_unique, lemma_slowest_exists,
    lemma_slowest_unique, lemma_unsampled_unique, millis, offsets_valid, pending_bytes,
    pending_spec, slowest, slowest_spec, to_millis, unsampled_spec, ConnSnapshot, PathId,
    PathStats, NANOS_PER_MILLI,
};
use crate::scheduler::Scheduler;

verus! {

/// One decision of the scheduler, as it is written to the statistics file. What
/// a decision did not need to compute is zero.
#[derive(Clone, Copy, Debug, PartialEq, Eq)]
pub struct ECFSchedulerStats {
    pub elapsed: u128,
    pub count: usize,
    pub waiting: bool,
    pub best_path_cwnd: usize,
    pub second_path_cwnd: usize,
    pub best_path_rtt: usize,
    pub second_path_rtt: usize,
    pub best_path_blocked: bool,
    pub send_on_second_path: bool,
    pub term1: usize,
    pub term2: usize,
    pub term3: usize,
    pub term4: usize,
    pub best_path_peer_addr: u16,
    pub second_path_peer_addr: u16,
}

/// The scheduler's state.
pub struct ECFScheduler {
    /// Whether the scheduler is holding packets back for the fastest path.
    pub waiting: bool,
    /// The decisions so far, the latest one last.
    pub records: Vec<ECFSchedulerStats>,
}

/// What the scheduler weighs: the two candidate paths and the bytes to send.
pub struct EcfInput {
    pub best: PathStats,
    pub second: PathStats,
    /// The bytes that wait to be sent.
    pub send_bytes: usize,
}

/// `x`, raised to `bound` where it is smaller.
pub open spec fn at_least(x: usize, bound: usize) -> usize {
    if x < bound {
        bound
    } else {
        x
    }
}

impl EcfInput {
    /// The candidates on a connection: the fastest and the slowest active path.
    pub open spec fn of(conn: ConnSnapshot) -> EcfInput {
        EcfInput {
            best: fastest_spec(conn.paths@, false),
            second: slowest_spec(conn.paths@),
            send_bytes: (pending_spec(conn.send_offsets@) as u64) as usize,
        }
    }

    pub open spec fn best_rtt(self) -> usize {
        millis(self.best.rtt)
    }

    pub open spec fn second_rtt(self) -> usize {
        millis(self.second.rtt)
    }

    /// The larger of the two round-trip variations, in milliseconds.
    pub open spec fn max_rttvar(self) -> usize {
        if self.best.rttvar / NANOS_PER_MILLI > self.second.rttvar / NANOS_PER_MILLI {
            millis(self.best.rttvar)
        } else {
            millis(self.second.rttvar)
        }
    }

    /// Whether the fastest path has no room left.
    pub open spec fn blocked(self) -> bool {
        self.best.cwnd <= self.best.bytes_in_flight
    }

    /// Four times what sending everything on the fastest path would cost.
    pub open spec fn term1(self) -> int {
        4 * (at_least(self.send_bytes, self.best.cwnd) + self.best.cwnd) * self.best_rtt()
    }

    /// What one round on the slowest path would cost, with a margin in favour of
    /// waiting while the scheduler already waits.
    pub open spec fn term2(self, waiting: bool) -> int {
        self.best.cwnd * (self.second_rtt() + self.max_rttvar()) * (if waiting {
            5int
        } else {
            4int
        })
    }

    /// What sending everything on the slowest path would cost.
    pub open spec fn term3(self) -> int {
        at_least(self.send_bytes, self.second.cwnd) * self.second_rtt()
    }

    /// What waiting two rounds of the fastest path would cost.
    pub open spec fn term4(self) -> int {
        self.second.cwnd * (2 * self.best_rtt() + self.max_rttvar())
    }

    /// Whether the fastest path promises to finish first.
    pub open spec fn prefers_best(self, waiting: bool) -> bool {
        self.term1() < self.term2(waiting)
    }

    /// Whether the slowest path is too slow to be worth using.
    pub open spec fn avoids_second(self) -> bool {
        self.term3() > self.term4()
    }

    /// Whether the scheduler holds the packet back.
    pub open spec fn waits(self, waiting: bool) -> bool {
        self.blocked() && self.prefers_best(waiting) && self.avoids_second()
    }

    /// Every number that the decision computes fits in a machine word.
    pub open spec fn fits(self, waiting: bool) -> bool {
        self.blocked() ==> {
            &&& 4 * (at_least(self.send_bytes, self.best.cwnd) + self.best.cwnd) <= usize::MAX
            &&& self.term1() <= usize::MAX
            &&& self.second_rtt() + self.max_rttvar() <= usize::MAX
            &&& self.term2(waiting) <= usize::MAX
            &&& self.prefers_best(waiting) ==> {
                &&& self.term3() <= usize::MAX
                &&& 2 * self.best_rtt() + self.max_rttvar() <= usize::MAX
                &&& self.term4() <= usize::MAX
            }
        }
    }

    /// The path chosen.
    pub open spec fn choice(self, waiting: bool) -> Option<PathId> {
        if !self.blocked() {
            Some(self.best.id_spec())
        } else if self.waits(waiting) {
            None
        } else {
            Some(self.second.id_spec())
        }
    }

    /// Whether the scheduler counts as waiting after the decision.
    pub open spec fn waiting_after(self, waiting: bool) -> bool {
        if !self.blocked() {
            waiting
        } else if self.prefers_best(waiting) {
            waiting || self.avoids_second()
        } else {
            false
        }
    }

    /// The record of the decision.
    pub open spec fn record(self, waiting: bool, elapsed: u128, count: usize) -> ECFSchedulerStats {
        let weighed = self.blocked() && self.prefers_best(waiting);
        ECFSchedulerStats {
            elapsed,
            count,
            waiting: self.waiting_after(waiting),
            best_path_cwnd: self.best.cwnd,
            second_path_cwnd: self.second.cwnd,
            best_path_rtt: self.best_rtt(),
            second_path_rtt: self.second_rtt(),
            best_path_blocked: self.blocked(),
            send_on_second_path: self.blocked() && !self.waits(waiting),
            term1: if self.blocked() {
                self.term1() as usize
            } else {
                0
            },
            term2: if self.blocked() {
                self.term2(waiting) as usize
            } else {
                0
            },
            term3: if weighed {
                self.term3() as usize
            } else {
                0
            },
            term4: if weighed {
                self.term4() as usize
            } else {
                0
            },
            best_path_peer_addr: self.best.peer_addr.port,
            second_path_peer_addr: self.second.peer_addr.port,
        }
    }
}

/// The record of a decision that only tries out a path without samples.
pub open spec fn probe_record(waiting: bool, elapsed: u128, count: usize) -> ECFSchedulerStats {
    ECFSchedulerStats {
        elapsed,
        count,
        waiting,
        best_path_cwnd: 0,
        second_path_cwnd: 0,
        best_path_rtt: 0,
        second_path_rtt: 0,
        best_path_blocked: false,
        send_on_second_path: false,
        term1: 0,
        term2: 0,
        term3: 0,
        term4: 0,
        best_path_peer_addr: 0,
        second_path_peer_addr: 0,
    }
}

/// What `ECFScheduler::next_path` chooses.
pub open spec fn ecf_choice(waiting: bool, conn: ConnSnapshot) -> Option<PathId> {
    if !all_sampled(conn.paths@) {
        Some(unsampled_spec(conn.paths@).id_spec())
    } else {
        EcfInput::of(conn).choice(waiting)
    }
}

/// Whether `ECFScheduler` waits after `next_path`.
pub open spec fn ecf_waiting_after(waiting: bool, conn: ConnSnapshot) -> bool {
    if !all_sampled(conn.paths@) {
        waiting
    } else {
        EcfInput::of(conn).waiting_after(waiting)
    }
}

/// The record that `ECFScheduler::next_path` leaves.
pub open spec fn ecf_record(waiting: bool, conn: ConnSnapshot) -> ECFSchedulerStats {
    if !all_sampled(conn.paths@) {
        probe_record(waiting, conn.elapsed, conn.paths@.len() as usize)
    } else {
        EcfInput::of(conn).record(waiting, conn.elapsed, conn.paths@.len() as usize)
    }
}

/// Waiting is sticky: where a scheduler that does not wait yet holds a packet back,
/// one that already waits does so too.
pub proof fn law_ecf_waiting_is_sticky(conn: ConnSnapshot)
    requires
        ecf_choice(false, conn) is None,
    ensures
        ecf_choice(true, conn) is None,
{
    let input = EcfInput::of(conn);
    let x = input.best.cwnd * (input.second_rtt() + input.max_rttvar());
    assert(0 <= x) by (nonlinear_arith)
        requires
            x == input.best.cwnd * (input.second_rtt() + input.max_rttvar()),
            0 <= input.best.cwnd,
            0 <= input.second_rtt() + input.max_rttvar(),
    ;
    assert(x * 4 <= x * 5);
}

/// A scheduler that holds a packet back keeps holding it back for as long as the
/// connection does not change.
pub proof fn law_ecf_waiting_is_stable(waiting: bool, conn: ConnSnapshot)
    requires
        ecf_choice(waiting, conn) is None,
    ensures
        ecf_waiting_after(waiting, conn),
        ecf_choice(true, conn) is None,
        ecf_waiting_after(true, conn),
{
    if !waiting {
        law_ecf_waiting_is_sticky(conn);
    }
}

/// A packet is held back only when every path has been tried, the fastest path
/// has no room, and waiting for it is the better choice; in every other case
/// the scheduler names a path.
pub proof fn law_ecf_holds_back_only_when_waiting_pays(waiting: bool, conn: ConnSnapshot)
    ensures
        ecf_choice(waiting, conn) is None <==> all_sampled(conn.paths@) && {
            let input = EcfInput::of(conn);
            input.blocked() && input.term1() < input.term2(waiting) && input.term3() > input.term4()
        },
        ecf_choice(waiting, conn) is None ==> ecf_waiting_after(waiting, conn),
{
}

/// While the fastest path has room, it is used and the scheduler's state stays
/// as it is.
pub proof fn law_ecf_uses_open_best_path(waiting: bool, conn: ConnSnapshot)
    requires
        all_sampled(conn.paths@),
        EcfInput::of(conn).best.has_window(),
    ensures
        ecf_choice(waiting, conn) == Some(EcfInput::of(conn).best.id_spec()),
        ecf_waiting_after(waiting, conn) == waiting,
{
}

/// Once every path has been tried, packets go to active paths only.
pub proof fn law_ecf_names_active_paths(waiting: bool, conn: ConnSnapshot)
    requires
        all_sampled(conn.paths@),
        any_eligible(conn.paths@, false),
    ensures
        ecf_choice(waiting, conn) matches Some(id) ==> conn.has_active_path(id),
{
    lemma_candidates_exist(conn);
}

/// Collects what the decision weighs.
fn gather(conn: &ConnSnapshot) -> (input: Option<EcfInput>)
    requires
        offsets_valid(conn.send_offsets@),
    ensures
        match input {
            Some(x) => any_eligible(conn.paths@, false) && x == EcfInput::of(*conn),
            None => !any_eligible(conn.paths@, false),
        },
{
    match (fastest(&conn.paths, false), slowest(&conn.paths)) {
        (Some(b), Some(w)) => {
            proof {
                lemma_fastest_unique(conn.paths@, false, b as int);
                lemma_slowest_unique(conn.paths@, w as int);
                assert(conn.paths@[b as int].eligible(false));
            }
            let pending: u64 = pending_bytes(&conn.send_offsets);
            let send_bytes: usize = #[verifier::truncate]
            (pending as usize);
            Some(EcfInput { best: conn.paths[b], second: conn.paths[w], send_bytes })
        },
        _ => {
            proof {
                if any_eligible(conn.paths@, false) {
                    let j = choose|j: int|
                        0 <= j < conn.paths@.len() && (#[trigger] conn.paths@[j]).eligible(false);
                    assert(conn.paths@[j].active);
                }
            }
            None
        },
    }
}

impl EcfInput {
    /// The larger of the two round-trip variations, in milliseconds.
    fn max_rttvar_exec(&self) -> (v: usize)
        ensures
            v == self.max_rttvar(),
    {
        if self.best.rttvar / NANOS_PER_MILLI > self.second.rttvar / NANOS_PER_MILLI {
            to_millis(self.best.rttvar)
        } else {
            to_millis(self.second.rttvar)
        }
    }

    /// The first term, where it and its factors fit in a machine word.
    fn checked_term1(&self) -> (t: Option<usize>)
        ensures
            match t {
                Some(v) => v == self.term1() && 4 * (at_least(self.send_bytes, self.best.cwnd)
                    + self.best.cwnd) <= usize::MAX,
                None => self.term1() > usize::MAX || 4 * (at_least(self.send_bytes, self.best.cwnd)
                    + self.best.cwnd) > usize::MAX,
            },
    {
        let bytes: usize = if self.send_bytes < self.best.cwnd {
            self.best.cwnd
        } else {
            self.send_bytes
        };
        match bytes.checked_add(self.best.cwnd) {
            Some(sum) => match sum.checked_mul(4) {
                Some(four) => four.checked_mul(to_millis(self.best.rtt)),
                None => None,
            },
            None => None,
        }
    }

    /// The second term, where it and its factors fit in a machine word.
    fn checked_term2(&self, waiting: bool) -> (t: Option<usize>)
        ensures
            match t {
                Some(v) => v == self.term2(waiting) && self.second_rtt() + self.max_rttvar()
                    <= usize::MAX,
                None => self.term2(waiting) > usize::MAX || self.second_rtt() + self.max_rttvar()
                    > usize::MAX,
            },
    {
        let margin: usize = if waiting {
            5
        } else {
            4
        };
        match to_millis(self.second.rtt).checked_add(self.max_rttvar_exec()) {
            Some(sum) => match self.best.cwnd.checked_mul(sum) {
                Some(p) => p.checked_mul(margin),
                None => None,
            },
            None => None,
        }
    }

    /// The third term, where it fits in a machine word.
    fn checked_term3(&self) -> (t: Option<usize>)
        ensures
            match t {
                Some(v) => v == self.term3(),
                None => self.term3() > usize::MAX,
            },
    {
        let bytes: usize = if self.send_bytes < self.second.cwnd {
            self.second.cwnd
        } else {
            self.send_bytes
        };
        bytes.checked_mul(to_millis(self.second.rtt))
    }

    /// The fourth term, where it and its factors fit in a machine word.
    fn checked_term4(&self) -> (t: Option<usize>)
        ensures
            match t {
                Some(v) => v == self.term4() && 2 * self.best_rtt() + self.max_rttvar()
                    <= usize::MAX,
                None => self.term4() > usize::MAX || 2 * self.best_rtt() + self.max_rttvar()
                    > usize::MAX,
            },
    {
        match to_millis(self.best.rtt).checked_mul(2) {
            Some(double) => match double.checked_add(self.max_rttvar_exec()) {
                Some(sum) => self.second.cwnd.checked_mul(sum),
                None => None,
            },
            None => None,
        }
    }

    /// Whether the decision can be computed.
    pub fn check_fits(&self, waiting: bool) -> (ok: bool)
        ensures
            ok == self.fits(waiting),
    {
        if self.best.cwnd > self.best.bytes_in_flight {
            return true;
        }
        match (self.checked_term1(), self.checked_term2(waiting)) {
            (Some(t1), Some(t2)) => if t1 < t2 {
                self.checked_term3().is_some() && self.checked_term4().is_some()
            } else {
                true
            },
            _ => false,
        }
    }

    /// Weighs the two paths: the path to send on, whether the scheduler now
    /// waits, and the record of the decision.
    pub fn decide(&self, waiting: bool, elapsed: u128, count: usize) -> (d: (
        Option<PathId>,
        bool,
        ECFSchedulerStats,
    ))
        requires
            self.fits(waiting),
        ensures
            d.0 == self.choice(waiting),
            d.1 == self.waiting_after(waiting),
            d.2 == self.record(waiting, elapsed, count),
    {
        let mut record: ECFSchedulerStats = ECFSchedulerStats {
            elapsed,
            count,
            waiting,
            best_path_cwnd: self.best.cwnd,
            second_path_cwnd: self.second.cwnd,
            best_path_rtt: to_millis(self.best.rtt),
            second_path_rtt: to_millis(self.second.rtt),
            best_path_blocked: false,
            send_on_second_path: false,
            term1: 0,
            term2: 0,
            term3: 0,
            term4: 0,
            best_path_peer_addr: self.best.peer_addr.port,
            second_path_peer_addr: self.second.peer_addr.port,
        };
        if self.best.cwnd > self.best.bytes_in_flight {
            return (Some(self.best.id()), waiting, record);
        }
        record.best_path_blocked = true;
        record.term1 = self.checked_term1().unwrap();
        record.term2 = self.checked_term2(waiting).unwrap();
        if record.term1 < record.term2 {
            record.term3 = self.checked_term3().unwrap();
            record.term4 = self.checked_term4().unwrap();
            if record.term3 > record.term4 {
                record.waiting = true;
                return (None, true, record);
            }
        } else {
            record.waiting = false;
        }
        record.send_on_second_path = true;
        (Some(self.second.id()), record.waiting, record)
    }
}

impl Scheduler for ECFScheduler {
    open spec fn ready(&self, conn: &ConnSnapshot) -> bool {
        all_sampled(conn.paths@) ==> {
            &&& any_eligible(conn.paths@, false)
            &&& offsets_valid(conn.send_offsets@)
            &&& EcfInput::of(*conn).fits(self.waiting)
        }
    }

    fn is_ready(&self, conn: &ConnSnapshot) -> (b: bool) {
        if first_unsampled(&conn.paths).is_some() {
            return true;
        }
        if !check_offsets(&conn.send_offsets) {
            return false;
        }
        match gather(conn) {
            Some(input) => input.check_fits(self.waiting),
            None => false,
        }
    }

    fn start(&mut self, conn: &ConnSnapshot)
        ensures
            *final(self) == *old(self),
    {
    }

    fn next_path(&mut self, conn: &ConnSnapshot) -> (chosen: Option<PathId>)
        ensures
            chosen == ecf_choice(old(self).waiting, *conn),
            final(self).waiting == ecf_waiting_after(old(self).waiting, *conn),
            final(self).records@ == old(self).records@.push(ecf_record(old(self).waiting, *conn)),
    {
        let count: usize = conn.paths.len();
        match first_unsampled(&conn.paths) {
            Some(i) => {
                proof {
                    lemma_unsampled_unique(conn.paths@, i as int);
                    assert(conn.paths@[i as int].id_spec() == conn.paths@[i as int].id_spec());
                }
                self.records.push(
                    ECFSchedulerStats {
                        elapsed: conn.elapsed,
                        count,
                        waiting: self.waiting,
                        best_path_cwnd: 0,
                        second_path_cwnd: 0,
                        best_path_rtt: 0,
                        second_path_rtt: 0,
                        best_path_blocked: false,
                        send_on_second_path: false,
                        term1: 0,
                        term2: 0,
                        term3: 0,
                        term4: 0,
                        best_path_peer_addr: 0,
                        second_path_peer_addr: 0,
                    },
                );
                Some(conn.paths[i].id())
            },
            None => {
                let input: EcfInput = gather(conn).unwrap();
                let (chosen, waiting, record) = input.decide(self.waiting, conn.elapsed, count);
                self.waiting = waiting;
                self.records.push(record);
                proof {
                    lemma_candidates_exist(*conn);
                }
                chosen
            },
        }
    }
}

/// Where some path is active, the two candidates are active paths of the
/// connection.
proof fn lemma_candidates_exist(conn: ConnSnapshot)
    requires
        any_eligible(conn.paths@, false),
    ensures
        conn.has_path(EcfInput::of(conn).best.id_spec()),
        conn.has_path(EcfInput::of(conn).second.id_spec()),
        conn.has_active_path(EcfInput::of(conn).best.id_spec()),
        conn.has_active_path(EcfInput::of(conn).second.id_spec()),
{
    lemma_fastest_exists(conn.paths@, false);
    lemma_slowest_exists(conn.paths@);
    let b = choose|i: int| is_fastest(conn.paths@, false, i);
    let w = choose|i: int| is_slowest(conn.paths@, i);
    assert(conn.paths@[b].id_spec() == EcfInput::of(conn).best.id_spec());
    assert(conn.paths@[w].id_spec() == EcfInput::of(conn).second.id_spec());
}

/// The variation that the decision reckons with is the larger of the two candidates'
/// variations, in whole milliseconds: it is no smaller than either, and is one of them.
pub proof fn law_ecf_variation_is_the_larger(input: EcfInput)
    requires
        input.best.rttvar / 1_000_000 <= usize::MAX,
        input.second.rttvar / 1_000_000 <= usize::MAX,
    ensures
        input.max_rttvar() >= input.best.rttvar / 1_000_000,
        input.max_rttvar() >= input.second.rttvar / 1_000_000,
        input.max_rttvar() == input.best.rttvar / 1_000_000 || input.max_rttvar()
            == input.second.rttvar / 1_000_000,
{
}

/// It does not matter which of the two candidates varies how much: with their
/// variations exchanged the decision, its record and the state after it are the same.
pub proof fn law_ecf_variations_are_exchangeable(
    a: EcfInput,
    b: EcfInput,
    waiting: bool,
    elapsed: u128,
    count: usize,
)
    requires
        b.best == (PathStats { rttvar: a.second.rttvar, ..a.best }),
        b.second == (PathStats { rttvar: a.best.rttvar, ..a.second }),
        b.send_bytes == a.send_bytes,
    ensures
        a.choice(waiting) == b.choice(waiting),
        a.waiting_after(waiting) == b.waiting_after(waiting),
        a.record(waiting, elapsed, count) == b.record(waiting, elapsed, count),
{
    assert(a.max_rttvar() == b.max_rttvar());
}

/// What a scheduler does on a connection all of whose paths have sent three packets,
/// read off the connection itself. `b` is the first of the active paths with the
/// smallest round-trip time, `w` the last of those with the largest. While `b` has room,
/// it is used. Otherwise the packet is held back exactly where both comparisons favour
/// `b`, and goes to `w` else. The scheduler stops waiting only where the first
/// comparison favours `w`, and starts only where it holds a packet back.
pub proof fn law_ecf_over_paths(waiting: bool, conn: ConnSnapshot, b: int, w: int)
    requires
        0 <= b < conn.paths@.len(),
        0 <= w < conn.paths@.len(),
        forall|j: int| 0 <= j < conn.paths@.len() ==> (#[trigger] conn.paths@[j]).sent >= 3,
        conn.paths@[b].active,
        forall|j: int|
            0 <= j < conn.paths@.len() && (#[trigger] conn.paths@[j]).active
                ==> conn.paths@[b].rtt <= conn.paths@[j].rtt && (j < b ==> conn.paths@[b].rtt
                != conn.paths@[j].rtt),
        conn.paths@[w].active,
        forall|j: int|
            0 <= j < conn.paths@.len() && (#[trigger] conn.paths@[j]).active
                ==> conn.paths@[j].rtt <= conn.paths@[w].rtt && (j > w ==> conn.paths@[w].rtt
                != conn.paths@[j].rtt),
    ensures
        ({
            let best = conn.paths@[b];
            let second = conn.paths@[w];
            let send_bytes = (pending_spec(conn.send_offsets@) as u64) as usize;
            let best_rtt = (best.rtt / 1_000_000) as usize;
            let second_rtt = (second.rtt / 1_000_000) as usize;
            let rttvar = (if best.rttvar / 1_000_000 <= second.rttvar / 1_000_000 {
                second.rttvar / 1_000_000
            } else {
                best.rttvar / 1_000_000
            }) as usize;
            let room = best.bytes_in_flight < best.cwnd;
            let on_best = if best.cwnd <= send_bytes {
                send_bytes
            } else {
                best.cwnd
            };
            let on_second = if second.cwnd <= send_bytes {
                send_bytes
            } else {
                second.cwnd
            };
            let margin = if waiting {
                5int
            } else {
                4int
            };
            let term1 = 4 * (on_best + best.cwnd) * best_rtt;
            let term2 = best.cwnd * (second_rtt + rttvar) * margin;
            let term3 = on_second * second_rtt;
            let term4 = second.cwnd * (2 * best_rtt + rttvar);
            let record = ecf_record(waiting, conn);
            &&& ecf_choice(waiting, conn) == (if room {
                Some((best.local_addr, best.peer_addr))
            } else if term1 < term2 && term3 > term4 {
                None
            } else {
                Some((second.local_addr, second.peer_addr))
            })
            &&& ecf_waiting_after(waiting, conn) == (if room {
                waiting
            } else {
                term1 < term2 && (waiting || term3 > term4)
            })
            &&& record.elapsed == conn.elapsed
            &&& record.count == conn.paths@.len() as usize
            &&& record.waiting == ecf_waiting_after(waiting, conn)
            &&& record.best_path_cwnd == best.cwnd && record.second_path_cwnd == second.cwnd
            &&& record.best_path_rtt == best_rtt && record.second_path_rtt == second_rtt
            &&& record.best_path_blocked == !room
            &&& record.send_on_second_path == (!room && !(term1 < term2 && term3 > term4))
            &&& record.best_path_peer_addr == best.peer_addr.port
            &&& record.second_path_peer_addr == second.peer_addr.port
            &&& room ==> record.term1 == 0 && record.term2 == 0
            &&& !room ==> record.term1 == term1 as usize && record.term2 == term2 as usize
            &&& room || term1 >= term2 ==> record.term3 == 0 && record.term4 == 0
            &&& !room && term1 < term2 ==> record.term3 == term3 as usize && record.term4
                == term4 as usize
        }),
{
    crate::path::law_fastest_path(conn.paths@, false, b);
    crate::path::law_slowest_path(conn.paths@, w);
    assert(all_sampled(conn.paths@));
}

/// A path that has sent fewer than three packets is tried first, the first such path;
/// the state stays as it is, and nothing is weighed.
pub proof fn law_ecf_tries_paths_first(waiting: bool, conn: ConnSnapshot, i: int)
    requires
        0 <= i < conn.paths@.len(),
        conn.paths@[i].sent < 3,
        forall|j: int| 0 <= j < i ==> (#[trigger] conn.paths@[j]).sent >= 3,
    ensures
        ecf_choice(waiting, conn) == Some((conn.paths@[i].local_addr, conn.paths@[i].peer_addr)),
        ecf_waiting_after(waiting, conn) == waiting,
        ({
            let r = ecf_record(waiting, conn);
            &&& r.elapsed == conn.elapsed && r.count == conn.paths@.len() as usize && r.waiting
                == waiting
            &&& !r.best_path_blocked && !r.send_on_second_path
            &&& r.best_path_cwnd == 0 && r.second_path_cwnd == 0 && r.best_path_rtt == 0
                && r.second_path_rtt == 0
            &&& r.term1 == 0 && r.term2 == 0 && r.term3 == 0 && r.term4 == 0
            &&& r.best_path_peer_addr == 0 && r.second_path_peer_addr == 0
        }),
{
    assert(crate::path::is_first_unsampled(conn.paths@, i));
    lemma_unsampled_unique(conn.paths@, i);
}

/// A scheduler can decide wherever some path has still to be tried, and where none has,
/// only if some path is active.
pub proof fn law_ecf_needs_a_path(sched: ECFScheduler, conn: ConnSnapshot)
    ensures
        (exists|j: int| 0 <= j < conn.paths@.len() && (#[trigger] conn.paths@[j]).sent < 3)
            ==> sched.ready(&conn),
        sched.ready(&conn) ==> exists|j: int|
            0 <= j < conn.paths@.len() && ((#[trigger] conn.paths@[j]).sent < 3
                || conn.paths@[j].active),
{
    if sched.ready(&conn) {
        if all_sampled(conn.paths@) {
            let j = choose|j: int|
                0 <= j < conn.paths@.len() && (#[trigger] conn.paths@[j]).eligible(false);
            assert(conn.paths@[j].active);
        }
    }
}

/// A scheduler can decide wherever some path is active, the offsets are usable, and
/// either the fastest path has room or no number that is weighed is too large for a
/// machine word.
pub proof fn law_ecf_can_decide(sched: ECFScheduler, conn: ConnSnapshot, b: int, w: int)
    requires
        is_fastest(conn.paths@, false, b),
        is_slowest(conn.paths@, w),
        offsets_valid(conn.send_offsets@),
    ensures
        ({
            let best = conn.paths@[b];
            let second = conn.paths@[w];
            let send_bytes = (pending_spec(conn.send_offsets@) as u64) as usize;
            let best_rtt = (best.rtt / 1_000_000) as usize;
            let second_rtt = (second.rtt / 1_000_000) as usize;
            let rttvar = (if best.rttvar / 1_000_000 <= second.rttvar / 1_000_000 {
                second.rttvar / 1_000_000
            } else {
                best.rttvar / 1_000_000
            }) as usize;
            let on_best = if best.cwnd <= send_bytes {
                send_bytes
            } else {
                best.cwnd
            };
            let on_second = if second.cwnd <= send_bytes {
                send_bytes
            } else {
                second.cwnd
            };
            let fits = {
                &&& 4 * (on_best + best.cwnd) <= usize::MAX
                &&& 4 * (on_best + best.cwnd) * best_rtt <= usize::MAX
                &&& second_rtt + rttvar <= usize::MAX
                &&& best.cwnd * (second_rtt + rttvar) * (if sched.waiting {
                    5int
                } else {
                    4int
                }) <= usize::MAX
                &&& on_second * second_rtt <= usize::MAX
                &&& 2 * best_rtt + rttvar <= usize::MAX
                &&& second.cwnd * (2 * best_rtt + rttvar) <= usize::MAX
            };
            best.bytes_in_flight < best.cwnd || fits ==> sched.ready(&conn)
        }),
{
    lemma_fastest_unique(conn.paths@, false, b);
    lemma_slowest_unique(conn.paths@, w);
    assert(conn.paths@[b].eligible(false));
}

} // verus!
