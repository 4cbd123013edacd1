//! Schedulers that choose, packet by packet, the path to send on.

use vstd::prelude::*;

use crate::path::{
    all_sampled, any_eligible, fastest, fastest_spec, first_unsampled, is_fastest,
    is_first_unsampled, lemma_fastest_exists, lemma_fastest_unique, lemma_unsampled_exists,
    lemma_unsampled_unique, unsampled_spec, ConnSnapshot, PathId, PathStats,
};

verus! {

/// A rule that spreads the packets of a connection over its paths.
pub trait Scheduler {
    /// Whether `next_path` can decide on this connection.
    spec fn ready(&self, conn: &ConnSnapshot) -> bool;

    /// Whether `next_path` can decide on this connection.
    fn is_ready(&self, conn: &ConnSnapshot) -> (b: bool)
        ensures
            b == self.ready(conn),
    ;

    /// Prepares for a burst of packets.
    fn start(&mut self, conn: &ConnSnapshot);

    /// The path for the next packet, or nothing where none should be sent now.
    /// What it returns is a path of the connection.
    fn next_path(&mut self, conn: &ConnSnapshot) -> (chosen: Option<PathId>)
        requires
            old(self).ready(conn),
        ensures
            chosen matches Some(id) ==> conn.has_path(id),
    ;
}

/// The schedulers that can be asked for by name.
#[derive(Clone, Copy, Debug, PartialEq, Eq, Structural)]
pub enum SchedulerKind {
    RoundRobin,
    MinRtt,
    Blest,
    Ecf,
    Rl,
}

/// The scheduler that goes by a name.
pub open spec fn kind_spec(name: Seq<char>) -> Option<SchedulerKind> {
    if name == "rr"@ {
        Some(SchedulerKind::RoundRobin)
    } else if name == "minRtt"@ {
        Some(SchedulerKind::MinRtt)
    } else if name == "blest"@ {
        Some(SchedulerKind::Blest)
    } else if name == "ecf"@ {
        Some(SchedulerKind::Ecf)
    } else if name == "rl"@ {
        Some(SchedulerKind::Rl)
    } else {
        None
    }
}

impl SchedulerKind {
    /// Looks a scheduler up by its name; other names stand for none.
    pub fn from_name(name: &String) -> (kind: Option<SchedulerKind>)
        ensures
            kind == kind_spec(name@),
            kind == Some(SchedulerKind::RoundRobin) <==> name@ == "rr"@,
            kind == Some(SchedulerKind::MinRtt) <==> name@ == "minRtt"@,
            kind == Some(SchedulerKind::Blest) <==> name@ == "blest"@,
            kind == Some(SchedulerKind::Ecf) <==> name@ == "ecf"@,
            kind == Some(SchedulerKind::Rl) <==> name@ == "rl"@,
    {
        proof {
            reveal_strlit("rr");
            reveal_strlit("minRtt");
            reveal_strlit("blest");
            reveal_strlit("ecf");
            reveal_strlit("rl");
            assert("rr"@[1] == 'r' && "rl"@[1] == 'l');
            assert("rr"@.len() == 2 && "minRtt"@.len() == 6 && "blest"@.len() == 5 && "ecf"@.len()
                == 3 && "rl"@.len() == 2);
        }
        if *name == "rr".to_string() {
            Some(SchedulerKind::RoundRobin)
        } else if *name == "minRtt".to_string() {
            Some(SchedulerKind::MinRtt)
        } else if *name == "blest".to_string() {
            Some(SchedulerKind::Blest)
        } else if *name == "ecf".to_string() {
            Some(SchedulerKind::Ecf)
        } else if *name == "rl".to_string() {
            Some(SchedulerKind::Rl)
        } else {
            None
        }
    }
}

/// Takes the paths in turn. After the last path comes one call without a path,
/// then the first path again.
#[derive(Clone, Copy, Debug, PartialEq, Eq)]
pub struct RoundRobinScheduler {
    /// The position last tried; the number of paths stands for none.
    pub next: usize,
}

/// The position that follows `next` among `count` paths.
pub open spec fn rr_advance(next: nat, count: nat) -> nat {
    if next >= count {
        0
    } else {
        next + 1
    }
}

/// The path at a position, if there is one.
pub open spec fn path_at(paths: Seq<PathStats>, i: nat) -> Option<PathId> {
    if i < paths.len() {
        Some(paths[i as int].id_spec())
    } else {
        None
    }
}

impl Scheduler for RoundRobinScheduler {
    open spec fn ready(&self, conn: &ConnSnapshot) -> bool {
        true
    }

    fn is_ready(&self, conn: &ConnSnapshot) -> (b: bool)
        ensures
            b,
    {
        true
    }

    fn start(&mut self, conn: &ConnSnapshot)
        ensures
            final(self).next == conn.paths@.len(),
    {
        self.next = conn.paths.len();
    }

    fn next_path(&mut self, conn: &ConnSnapshot) -> (chosen: Option<PathId>)
        ensures
            final(self).next == rr_advance(old(self).next as nat, conn.paths@.len()),
            chosen == path_at(conn.paths@, final(self).next as nat),
            old(self).next >= conn.paths@.len() ==> final(self).next == 0,
            old(self).next < conn.paths@.len() ==> final(self).next == old(self).next + 1,
            final(self).next >= conn.paths@.len() <==> chosen is None,
            chosen matches Some(id) ==> {
                let p = conn.paths@[final(self).next as int];
                id.0 == p.local_addr && id.1 == p.peer_addr
            },
    {
        self.next = if self.next >= conn.paths.len() {
            0
        } else {
            self.next + 1
        };
        if self.next < conn.paths.len() {
            let i: usize = self.next;
            assert(conn.paths@[i as int].id_spec() == conn.paths@[i as int].id_spec());
            Some(conn.paths[i].id())
        } else {
            None
        }
    }
}

/// The position after `calls` calls of `next_path` on a fixed set of paths.
pub open spec fn rr_position(next: nat, count: nat, calls: nat) -> nat
    decreases calls,
{
    if calls == 0 {
        next
    } else {
        rr_advance(rr_position(next, count, (calls - 1) as nat), count)
    }
}

/// From the position that `start` sets, the calls of `next_path` on a fixed set
/// of paths take every path once, in order, then none, and so on in cycles: the
/// call after `k` earlier ones looks at position `k` modulo the number of paths
/// plus one.
pub proof fn law_round_robin_cycles(paths: Seq<PathStats>, k: nat)
    ensures
        rr_position(paths.len(), paths.len(), k + 1) == k % (paths.len() + 1),
        path_at(paths, rr_position(paths.len(), paths.len(), k + 1)) == (if k % (paths.len() + 1)
            < paths.len() {
            Some(paths[(k % (paths.len() + 1)) as int].id_spec())
        } else {
            None
        }),
    decreases k,
{
    let n = paths.len();
    let m = (n + 1) as int;
    if k == 0 {
        assert(rr_position(n, n, 0) == n);
        assert(0int % m == 0) by (nonlinear_arith)
            requires
                m > 0,
        ;
    } else {
        let h = (k - 1) as nat;
        law_round_robin_cycles(paths, h);
        let r = h as int % m;
        assert(0 <= r < m) by (nonlinear_arith)
            requires
                m > 0,
                r == h as int % m,
        ;
        assert(k as int % m == if r + 1 < m {
            r + 1
        } else {
            0
        }) by {
            vstd::arithmetic::div_mod::lemma_fundamental_div_mod(h as int, m);
            let q = h as int / m;
            if r + 1 < m {
                vstd::arithmetic::div_mod::lemma_fundamental_div_mod_converse(k as int, m, q, r + 1);
            } else {
                assert(m * (q + 1) == m * q + m) by (nonlinear_arith);
                vstd::arithmetic::mul::lemma_mul_is_commutative(m, q + 1);
                vstd::arithmetic::mul::lemma_mul_is_commutative(m, q);
                vstd::arithmetic::div_mod::lemma_fundamental_div_mod_converse(k as int, m, q + 1, 0);
            }
        }
    }
}

/// Prefers the path with the smallest round-trip time, once every path has been
/// tried a few times.
#[derive(Clone, Copy, Debug, PartialEq, Eq)]
pub struct MinRttScheduler {}

/// What `MinRttScheduler` chooses.
pub open spec fn min_rtt_choice(paths: Seq<PathStats>) -> Option<PathId> {
    if !all_sampled(paths) {
        Some(unsampled_spec(paths).id_spec())
    } else if any_eligible(paths, true) {
        Some(fastest_spec(paths, true).id_spec())
    } else {
        None
    }
}

impl Scheduler for MinRttScheduler {
    open spec fn ready(&self, conn: &ConnSnapshot) -> bool {
        true
    }

    fn is_ready(&self, conn: &ConnSnapshot) -> (b: bool)
        ensures
            b,
    {
        true
    }

    fn start(&mut self, conn: &ConnSnapshot)
        ensures
            *final(self) == *old(self),
    {
    }

    fn next_path(&mut self, conn: &ConnSnapshot) -> (chosen: Option<PathId>)
        ensures
            chosen == min_rtt_choice(conn.paths@),
    {
        match first_unsampled(&conn.paths) {
            Some(i) => {
                proof {
                    lemma_unsampled_unique(conn.paths@, i as int);
                    assert(conn.paths@[i as int].id_spec() == conn.paths@[i as int].id_spec());
                }
                Some(conn.paths[i].id())
            },
            None => match fastest(&conn.paths, true) {
                Some(i) => {
                    proof {
                        lemma_fastest_unique(conn.paths@, true, i as int);
                        assert(conn.paths@[i as int].eligible(true));
                        assert(conn.paths@[i as int].id_spec() == conn.paths@[i as int].id_spec());
                    }
                    Some(conn.paths[i].id())
                },
                None => None,
            },
        }
    }
}

/// The scheduler names the first path that lacks samples; where none does, the
/// path with the smallest round-trip time of the active ones whose congestion
/// window has room; and where there is no such path, none.
pub proof fn law_min_rtt_choice(paths: Seq<PathStats>)
    ensures
        !all_sampled(paths) ==> exists|i: int| #[trigger]
            is_first_unsampled(paths, i) && min_rtt_choice(paths) == Some(paths[i].id_spec()),
        all_sampled(paths) && any_eligible(paths, true) ==> exists|i: int| #[trigger]
            is_fastest(paths, true, i) && min_rtt_choice(paths) == Some(paths[i].id_spec()),
        all_sampled(paths) && !any_eligible(paths, true) ==> min_rtt_choice(paths) is None,
{
    if !all_sampled(paths) {
        lemma_unsampled_exists(paths);
        let i = choose|i: int| is_first_unsampled(paths, i);
        lemma_unsampled_unique(paths, i);
    } else if any_eligible(paths, true) {
        lemma_fastest_exists(paths, true);
        let i = choose|i: int| is_fastest(paths, true, i);
        lemma_fastest_unique(paths, true, i);
    }
}

/// The first path that has sent fewer than three packets is named before any other.
/// Once there is none, no path is named that is not active, has no room in its window,
/// or has a larger round-trip time than another such path, or the same one behind it;
/// and some path is named as long as there is one that is active and has room.
pub proof fn law_min_rtt_over_paths(paths: Seq<PathStats>, i: int)
    requires
        0 <= i < paths.len(),
    ensures
        paths[i].sent < 3 && (forall|j: int| 0 <= j < i ==> (#[trigger] paths[j]).sent >= 3)
            ==> min_rtt_choice(paths) == Some((paths[i].local_addr, paths[i].peer_addr)),
        (forall|j: int| 0 <= j < paths.len() ==> (#[trigger] paths[j]).sent >= 3)
            && paths[i].active && paths[i].bytes_in_flight < paths[i].cwnd && (forall|j: int|
            0 <= j < paths.len() && (#[trigger] paths[j]).active && paths[j].bytes_in_flight
                < paths[j].cwnd ==> paths[i].rtt <= paths[j].rtt && (j < i ==> paths[i].rtt
                != paths[j].rtt)) ==> min_rtt_choice(paths) == Some(
            (paths[i].local_addr, paths[i].peer_addr),
        ),
        (forall|j: int| 0 <= j < paths.len() ==> (#[trigger] paths[j]).sent >= 3) ==> (
        min_rtt_choice(paths) is None <==> forall|j: int|
            0 <= j < paths.len() ==> !((#[trigger] paths[j]).active && paths[j].bytes_in_flight
                < paths[j].cwnd)),
{
    if paths[i].sent < 3 && (forall|j: int| 0 <= j < i ==> (#[trigger] paths[j]).sent >= 3) {
        assert(is_first_unsampled(paths, i));
        lemma_unsampled_unique(paths, i);
    }
    if forall|j: int| 0 <= j < paths.len() ==> (#[trigger] paths[j]).sent >= 3 {
        crate::path::law_fastest_path(paths, true, i);
        if is_fastest(paths, true, i) {
            assert(paths[i].eligible(true));
        }
        if any_eligible(paths, true) {
            let k = choose|k: int| 0 <= k < paths.len() && (#[trigger] paths[k]).eligible(true);
            assert(paths[k].active && paths[k].bytes_in_flight < paths[k].cwnd);
        } else {
            assert forall|j: int| 0 <= j < paths.len() implies !((#[trigger] paths[j]).active
                && paths[j].bytes_in_flight < paths[j].cwnd) by {
                assert(!paths[j].eligible(true));
            }
        }
    }
}

/// Whatever position a scheduler has come to, and however many paths there are by now:
/// behind the last path it starts over with the first one, and otherwise it takes the
/// path that follows.
pub proof fn law_round_robin_step(paths: Seq<PathStats>, next: nat)
    ensures
        next >= paths.len() && paths.len() > 0 ==> path_at(paths, rr_advance(next, paths.len()))
            == Some((paths[0].local_addr, paths[0].peer_addr)),
        next + 1 < paths.len() ==> path_at(paths, rr_advance(next, paths.len())) == Some(
            (paths[next as int + 1].local_addr, paths[next as int + 1].peer_addr),
        ),
        next + 1 == paths.len() || paths.len() == 0 ==> path_at(
            paths,
            rr_advance(next, paths.len()),
        ) is None,
{
}

} // verus!
