//! The learned scheduler: a remote agent is shown the round-trip times of two
//! paths and answers which of them to use.

use vstd::prelude::*;

use crate::path::{
    any_eligible, fastest, fastest_spec, is_fastest, is_slowest, lemma_fastest_exists,
    lemma_fastest_unique, lemma_slowest_exists, lemma_slowest_unique, millis, slowest,
    slowest_spec, to_millis, ConnSnapshot, PathId,
};

verus! {

/// What the agent is shown. Times are in milliseconds.
#[derive(Clone, Copy, Debug, PartialEq, Eq)]
pub struct Data {
    pub best_rtt: usize,
    pub second_rtt: usize,
}

/// A question to the agent, with the paths that its answer selects from.
#[derive(Clone, Copy, Debug, PartialEq, Eq)]
pub struct RLQuery {
    pub data: Data,
    pub best: PathId,
    pub second: PathId,
}

/// The question that a connection gives rise to: the fastest and the slowest of
/// its active paths.
pub open spec fn rl_query(conn: ConnSnapshot) -> RLQuery {
    RLQuery {
        data: Data {
            best_rtt: millis(fastest_spec(conn.paths@, false).rtt),
            second_rtt: millis(slowest_spec(conn.paths@).rtt),
        },
        best: fastest_spec(conn.paths@, false).id_spec(),
        second: slowest_spec(conn.paths@).id_spec(),
    }
}

impl RLQuery {
    /// Forms the question; without an active path there is none.
    pub fn new(conn: &ConnSnapshot) -> (query: Option<RLQuery>)
        ensures
            match query {
                Some(q) => {
                    &&& any_eligible(conn.paths@, false)
                    &&& q == rl_query(*conn)
                    &&& conn.has_path(q.best)
                    &&& conn.has_path(q.second)
                },
                None => !any_eligible(conn.paths@, false),
            },
            query is Some <==> exists|j: int|
                0 <= j < conn.paths@.len() && (#[trigger] conn.paths@[j]).active,
    {
        match (fastest(&conn.paths, false), slowest(&conn.paths)) {
            (Some(b), Some(w)) => {
                proof {
                    assert(conn.paths@[b as int].active);
                    lemma_fastest_unique(conn.paths@, false, b as int);
                    lemma_slowest_unique(conn.paths@, w as int);
                    assert(conn.paths@[b as int].eligible(false));
                    assert(conn.paths@[b as int].id_spec() == rl_query(*conn).best);
                    assert(conn.paths@[w as int].id_spec() == rl_query(*conn).second);
                }
                Some(
                    RLQuery {
                        data: Data {
                            best_rtt: to_millis(conn.paths[b].rtt),
                            second_rtt: to_millis(conn.paths[w].rtt),
                        },
                        best: conn.paths[b].id(),
                        second: conn.paths[w].id(),
                    },
                )
            },
            _ => {
                proof {
                    if any_eligible(conn.paths@, false) {
                        let j = choose|j: int|
                            0 <= j < conn.paths@.len() && (#[trigger] conn.paths@[j]).eligible(
                                false,
                            );
                        assert(conn.paths@[j].active);
                    }
                    assert forall|j: int| 0 <= j < conn.paths@.len() implies !(
                    #[trigger] conn.paths@[j]).active by {
                        assert(!conn.paths@[j].eligible(false));
                    }
                }
                None
            },
        }
    }

    /// The path that an answer selects: 0 the fastest, 1 the slowest; any other
    /// answer, or none, holds the packet back.
    pub open spec fn answer_spec(self, reply: Option<u8>) -> Option<PathId> {
        match reply {
            Some(0) => Some(self.best),
            Some(1) => Some(self.second),
            _ => None,
        }
    }

    /// The path that an answer selects.
    pub fn answer(&self, reply: Option<u8>) -> (chosen: Option<PathId>)
        ensures
            chosen == self.answer_spec(reply),
            reply == Some(0u8) ==> chosen == Some(self.best),
            reply == Some(1u8) ==> chosen == Some(self.second),
            reply != Some(0u8) && reply != Some(1u8) ==> chosen is None,
    {
        match reply {
            Some(resp) => if resp == 0 {
                Some(self.best)
            } else if resp == 1 {
                Some(self.second)
            } else {
                None
            },
            None => None,
        }
    }
}

/// Whatever the agent answers, packets go to active paths only.
pub proof fn law_rl_names_active_paths(conn: ConnSnapshot, reply: Option<u8>)
    requires
        any_eligible(conn.paths@, false),
    ensures
        rl_query(conn).answer_spec(reply) matches Some(id) ==> conn.has_active_path(id),
{
    lemma_fastest_exists(conn.paths@, false);
    lemma_slowest_exists(conn.paths@);
    let b = choose|i: int| is_fastest(conn.paths@, false, i);
    let w = choose|i: int| is_slowest(conn.paths@, i);
    assert(conn.paths@[b].id_spec() == rl_query(conn).best);
    assert(conn.paths@[w].id_spec() == rl_query(conn).second);
}

/// The agent chooses between the first of the active paths with the smallest
/// round-trip time and the last of those with the largest, whether or not they have
/// room, and is shown the two times in milliseconds.
pub proof fn law_rl_question_over_paths(conn: ConnSnapshot, b: int, w: int)
    requires
        0 <= b < conn.paths@.len(),
        0 <= w < conn.paths@.len(),
        conn.paths@[b].active,
        forall|j: int|
            0 <= j < conn.paths@.len() && (#[trigger] conn.paths@[j]).active
                ==> conn.paths@[b].rtt <= conn.paths@[j].rtt && (j < b ==> conn.paths@[b].rtt
                != conn.paths@[j].rtt),
        conn.paths@[w].active,
        forall|j: int|
            0 <= j < conn.paths@.len() && (#[trigger] conn.paths@[j]).active
                ==> conn.paths@[j].rtt <= conn.paths@[w].rtt && (j > w ==> conn.paths@[w].rtt
                != conn.paths@[j].rtt),
    ensures
        ({
            let q = rl_query(conn);
            &&& q.best == (conn.paths@[b].local_addr, conn.paths@[b].peer_addr)
            &&& q.second == (conn.paths@[w].local_addr, conn.paths@[w].peer_addr)
            &&& q.data.best_rtt == (conn.paths@[b].rtt / 1_000_000) as usize
            &&& q.data.second_rtt == (conn.paths@[w].rtt / 1_000_000) as usize
            &&& q.answer_spec(Some(0)) == Some(q.best)
            &&& q.answer_spec(Some(1)) == Some(q.second)
        }),
{
    crate::path::law_fastest_path(conn.paths@, false, b);
    crate::path::law_slowest_path(conn.paths@, w);
}

/// No active path is faster than what the agent is shown of the best path, and none is
/// slower than what it is shown of the second.
pub proof fn law_rl_shows_the_extremes(conn: ConnSnapshot, j: int)
    requires
        0 <= j < conn.paths@.len(),
        conn.paths@[j].active,
        forall|k: int|
            0 <= k < conn.paths@.len() ==> (#[trigger] conn.paths@[k]).rtt / 1_000_000 <= usize::MAX,
    ensures
        rl_query(conn).data.best_rtt <= conn.paths@[j].rtt / 1_000_000
            <= rl_query(conn).data.second_rtt,
{
    assert(conn.paths@[j].eligible(false));
    lemma_fastest_exists(conn.paths@, false);
    lemma_slowest_exists(conn.paths@);
    let b = choose|i: int| is_fastest(conn.paths@, false, i);
    let w = choose|i: int| is_slowest(conn.paths@, i);
    lemma_fastest_unique(conn.paths@, false, b);
    lemma_slowest_unique(conn.paths@, w);
    assert(conn.paths@[b].rtt <= conn.paths@[j].rtt <= conn.paths@[w].rtt);
    assert(conn.paths@[b].rtt / 1_000_000 <= conn.paths@[j].rtt / 1_000_000);
    assert(conn.paths@[j].rtt / 1_000_000 <= conn.paths@[w].rtt / 1_000_000);
}

/// The question depends on the addresses, the round-trip times and the activity of the
/// paths alone: how full their windows are changes nothing.
pub proof fn law_rl_ignores_windows(a: ConnSnapshot, b: ConnSnapshot)
    requires
        any_eligible(a.paths@, false),
        a.paths@.len() == b.paths@.len(),
        forall|j: int|
            0 <= j < a.paths@.len() ==> {
                &&& (#[trigger] a.paths@[j]).active == b.paths@[j].active
                &&& a.paths@[j].rtt == b.paths@[j].rtt
                &&& a.paths@[j].local_addr == b.paths@[j].local_addr
                &&& a.paths@[j].peer_addr == b.paths@[j].peer_addr
            },
    ensures
        rl_query(a) == rl_query(b),
{
    lemma_fastest_exists(a.paths@, false);
    lemma_slowest_exists(a.paths@);
    let i = choose|i: int| is_fastest(a.paths@, false, i);
    let w = choose|i: int| is_slowest(a.paths@, i);
    lemma_fastest_unique(a.paths@, false, i);
    lemma_slowest_unique(a.paths@, w);
    assert(is_fastest(b.paths@, false, i)) by {
        assert forall|j: int|
            0 <= j < b.paths@.len() && (#[trigger] b.paths@[j]).eligible(false) implies if j < i {
            b.paths@[i].rtt < b.paths@[j].rtt
        } else {
            b.paths@[i].rtt <= b.paths@[j].rtt
        } by {
            assert(a.paths@[j].eligible(false));
        }
        assert(a.paths@[i].eligible(false));
    }
    assert(is_slowest(b.paths@, w)) by {
        assert forall|j: int| 0 <= j < b.paths@.len() && (#[trigger] b.paths@[j]).active implies if j
            > w {
            b.paths@[j].rtt < b.paths@[w].rtt
        } else {
            b.paths@[j].rtt <= b.paths@[w].rtt
        } by {
            assert(a.paths@[j].active);
        }
        assert(a.paths@[w].active);
    }
    lemma_fastest_unique(b.paths@, false, i);
    lemma_slowest_unique(b.paths@, w);
}

} // verus!
