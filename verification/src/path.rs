//! What the schedulers read of a connection: its paths and its streams.

use vstd::prelude::*;

use crate::addr::SocketAddr;

verus! {

/// A path, as its local and its peer address.
pub type PathId = (SocketAddr, SocketAddr);

/// Nanoseconds in a millisecond.
pub const NANOS_PER_MILLI: u128 = 1_000_000;

/// A path with fewer sent packets than this has no usable estimates yet.
pub const MIN_SAMPLES: usize = 3;

/// The state of one path of a connection. Times are in nanoseconds.
#[derive(Clone, Copy, Debug, PartialEq, Eq)]
pub struct PathStats {
    pub local_addr: SocketAddr,
    pub peer_addr: SocketAddr,
    /// Whether packets may be sent on the path.
    pub active: bool,
    /// Packets sent so far.
    pub sent: usize,
    /// Smoothed round-trip time.
    pub rtt: u128,
    /// Variation of the round-trip time.
    pub rttvar: u128,
    /// Congestion window, in bytes.
    pub cwnd: usize,
    /// Bytes sent and not yet acknowledged or lost.
    pub bytes_in_flight: usize,
    pub sent_bytes: u64,
    pub recv_bytes: u64,
}

/// A connection at one instant.
pub struct ConnSnapshot {
    /// The paths, in the order in which the transport lists them.
    pub paths: Vec<PathStats>,
    /// For each writable stream its highest and its back offset, or nothing
    /// where the transport does not report them.
    pub send_offsets: Vec<Option<(u64, u64)>>,
    /// Milliseconds since the server started.
    pub elapsed: u128,
}

impl PathStats {
    /// The addresses that name the path.
    pub open spec fn id_spec(self) -> PathId {
        (self.local_addr, self.peer_addr)
    }

    /// The addresses that name the path.
    pub fn id(&self) -> (id: PathId)
        ensures
            id == self.id_spec(),
            id.0 == self.local_addr,
            id.1 == self.peer_addr,
    {
        (self.local_addr, self.peer_addr)
    }

    /// Whether the path has room for another packet.
    pub open spec fn has_window(self) -> bool {
        self.bytes_in_flight < self.cwnd
    }

    /// Whether the path may be scheduled: it is active and, where `need_window`
    /// is set, its congestion window has room.
    pub open spec fn eligible(self, need_window: bool) -> bool {
        self.active && (need_window ==> self.has_window())
    }
}

impl ConnSnapshot {
    /// Whether `id` names a path of the connection.
    pub open spec fn has_path(self, id: PathId) -> bool {
        exists|i: int| 0 <= i < self.paths@.len() && #[trigger] self.paths@[i].id_spec() == id
    }

    /// Whether `id` names an active path of the connection.
    pub open spec fn has_active_path(self, id: PathId) -> bool {
        exists|i: int|
            0 <= i < self.paths@.len() && self.paths@[i].active && #[trigger] self.paths@[i].id_spec()
                == id
    }
}

/// A duration in whole milliseconds, kept to the width of a machine word.
pub open spec fn millis(nanos: u128) -> usize {
    (nanos / NANOS_PER_MILLI) as usize
}

/// `i` is the first path that has sent fewer than `MIN_SAMPLES` packets.
pub open spec fn is_first_unsampled(paths: Seq<PathStats>, i: int) -> bool {
    &&& 0 <= i < paths.len()
    &&& paths[i].sent < MIN_SAMPLES
    &&& forall|j: int| 0 <= j < i ==> (#[trigger] paths[j]).sent >= MIN_SAMPLES
}

/// Every path has sent at least `MIN_SAMPLES` packets.
pub open spec fn all_sampled(paths: Seq<PathStats>) -> bool {
    forall|j: int| 0 <= j < paths.len() ==> (#[trigger] paths[j]).sent >= MIN_SAMPLES
}

/// Some path is eligible.
pub open spec fn any_eligible(paths: Seq<PathStats>, need_window: bool) -> bool {
    exists|j: int| 0 <= j < paths.len() && (#[trigger] paths[j]).eligible(need_window)
}

/// `i` is the eligible path with the smallest round-trip time, the first one
/// where several share it.
pub open spec fn is_fastest(paths: Seq<PathStats>, need_window: bool, i: int) -> bool {
    &&& 0 <= i < paths.len()
    &&& paths[i].eligible(need_window)
    &&& forall|j: int|
        0 <= j < paths.len() && (#[trigger] paths[j]).eligible(need_window) ==> if j < i {
            paths[i].rtt < paths[j].rtt
        } else {
            paths[i].rtt <= paths[j].rtt
        }
}

/// `i` is the active path with the largest round-trip time, the last one where
/// several share it.
pub open spec fn is_slowest(paths: Seq<PathStats>, i: int) -> bool {
    &&& 0 <= i < paths.len()
    &&& paths[i].active
    &&& forall|j: int|
        0 <= j < paths.len() && (#[trigger] paths[j]).active ==> if j > i {
            paths[j].rtt < paths[i].rtt
        } else {
            paths[j].rtt <= paths[i].rtt
        }
}

/// The eligible path with the smallest round-trip time.
pub open spec fn fastest_spec(paths: Seq<PathStats>, need_window: bool) -> PathStats {
    paths[choose|i: int| is_fastest(paths, need_window, i)]
}

/// The active path with the largest round-trip time.
pub open spec fn slowest_spec(paths: Seq<PathStats>) -> PathStats {
    paths[choose|i: int| is_slowest(paths, i)]
}

/// The first path that lacks samples.
pub open spec fn unsampled_spec(paths: Seq<PathStats>) -> PathStats {
    paths[choose|i: int| is_first_unsampled(paths, i)]
}

/// At most one path is the fastest, and it is the one that `fastest_spec` picks.
pub proof fn lemma_fastest_unique(paths: Seq<PathStats>, need_window: bool, i: int)
    requires
        is_fastest(paths, need_window, i),
    ensures
        fastest_spec(paths, need_window) == paths[i],
        forall|j: int| #[trigger] is_fastest(paths, need_window, j) ==> j == i,
{
    assert forall|j: int| #[trigger] is_fastest(paths, need_window, j) implies j == i by {
        assert(paths[i].eligible(need_window));
        assert(paths[j].eligible(need_window));
    }
}

/// Where not every path has its samples, one is the first that lacks them.
pub proof fn lemma_unsampled_exists(paths: Seq<PathStats>)
    requires
        !all_sampled(paths),
    ensures
        exists|i: int| is_first_unsampled(paths, i),
    decreases paths.len(),
{
    let front = paths.drop_last();
    assert(forall|j: int| 0 <= j < front.len() ==> #[trigger] paths[j] == front[j]);
    if !all_sampled(front) {
        lemma_unsampled_exists(front);
        let i = choose|i: int| is_first_unsampled(front, i);
        assert(is_first_unsampled(paths, i));
    } else {
        assert forall|j: int| 0 <= j < front.len() implies (#[trigger] paths[j]).sent
            >= MIN_SAMPLES by {
            assert(front[j].sent >= MIN_SAMPLES);
        }
        assert(is_first_unsampled(paths, front.len() as int));
    }
}

/// Where some path is eligible, one is the fastest.
pub proof fn lemma_fastest_exists(paths: Seq<PathStats>, need_window: bool)
    requires
        any_eligible(paths, need_window),
    ensures
        exists|i: int| is_fastest(paths, need_window, i),
    decreases paths.len(),
{
    let front = paths.drop_last();
    let n = paths.len() - 1;
    if any_eligible(front, need_window) {
        lemma_fastest_exists(front, need_window);
        let i = choose|i: int| is_fastest(front, need_window, i);
        assert(forall|j: int| 0 <= j < n ==> #[trigger] paths[j] == front[j]);
        if paths[n].eligible(need_window) && paths[n].rtt < paths[i].rtt {
            assert(is_fastest(paths, need_window, n));
        } else {
            assert(is_fastest(paths, need_window, i));
        }
    } else {
        let k = choose|k: int| 0 <= k < paths.len() && (#[trigger] paths[k]).eligible(need_window);
        if k < n {
            assert(front[k].eligible(need_window));
        }
        assert forall|j: int| 0 <= j < n implies !(#[trigger] paths[j]).eligible(need_window) by {
            assert(front[j] == paths[j]);
        }
        assert(is_fastest(paths, need_window, n));
    }
}

/// Where some path is active, one is the slowest.
pub proof fn lemma_slowest_exists(paths: Seq<PathStats>)
    requires
        any_eligible(paths, false),
    ensures
        exists|i: int| is_slowest(paths, i),
    decreases paths.len(),
{
    let front = paths.drop_last();
    let n = paths.len() - 1;
    if any_eligible(front, false) {
        lemma_slowest_exists(front);
        let i = choose|i: int| is_slowest(front, i);
        assert(forall|j: int| 0 <= j < n ==> #[trigger] paths[j] == front[j]);
        if paths[n].active && paths[n].rtt >= paths[i].rtt {
            assert(is_slowest(paths, n));
        } else {
            assert(is_slowest(paths, i));
        }
    } else {
        let k = choose|k: int| 0 <= k < paths.len() && (#[trigger] paths[k]).eligible(false);
        if k < n {
            assert(front[k].eligible(false));
        }
        assert forall|j: int| 0 <= j < n implies !(#[trigger] paths[j]).active by {
            assert(front[j] == paths[j]);
            assert(!front[j].eligible(false));
        }
        assert(is_slowest(paths, n));
    }
}

/// At most one path is the slowest, and it is the one that `slowest_spec` picks.
pub proof fn lemma_slowest_unique(paths: Seq<PathStats>, i: int)
    requires
        is_slowest(paths, i),
    ensures
        slowest_spec(paths) == paths[i],
        forall|j: int| #[trigger] is_slowest(paths, j) ==> j == i,
{
    assert forall|j: int| #[trigger] is_slowest(paths, j) implies j == i by {
        assert(paths[i].active);
        assert(paths[j].active);
    }
}

/// At most one path is the first without samples, and it is the one that
/// `unsampled_spec` picks.
pub proof fn lemma_unsampled_unique(paths: Seq<PathStats>, i: int)
    requires
        is_first_unsampled(paths, i),
    ensures
        unsampled_spec(paths) == paths[i],
        forall|j: int| #[trigger] is_first_unsampled(paths, j) ==> j == i,
{
    assert forall|j: int| #[trigger] is_first_unsampled(paths, j) implies j == i by {
        if j < i {
            assert(paths[j].sent >= MIN_SAMPLES);
        } else if i < j {
            assert(paths[i].sent >= MIN_SAMPLES);
        }
    }
}

/// A duration in whole milliseconds, kept to the width of a machine word.
pub fn to_millis(nanos: u128) -> (ms: usize)
    ensures
        ms == millis(nanos),
        nanos < 1_000_000 * usize::MAX ==> 1_000_000 * ms <= nanos < 1_000_000 * (ms + 1),
{
    #[verifier::truncate]
    ((nanos / NANOS_PER_MILLI) as usize)
}

/// Finds the first path that has sent fewer than `MIN_SAMPLES` packets.
pub fn first_unsampled(paths: &Vec<PathStats>) -> (found: Option<usize>)
    ensures
        match found {
            Some(i) => is_first_unsampled(paths@, i as int),
            None => all_sampled(paths@),
        },
        found is None <==> forall|j: int|
            0 <= j < paths@.len() ==> (#[trigger] paths@[j]).sent >= 3,
        found matches Some(i) ==> i < paths@.len() && paths@[i as int].sent < 3,
{
    let mut i: usize = 0;
    while i < paths.len()
        invariant
            i <= paths@.len(),
            forall|j: int| 0 <= j < i ==> (#[trigger] paths@[j]).sent >= MIN_SAMPLES,
        decreases paths@.len() - i,
    {
        if paths[i].sent < MIN_SAMPLES {
            return Some(i);
        }
        i = i + 1;
    }
    None
}

/// Finds the eligible path with the smallest round-trip time, the first one
/// where several share it.
pub fn fastest(paths: &Vec<PathStats>, need_window: bool) -> (found: Option<usize>)
    ensures
        match found {
            Some(i) => is_fastest(paths@, need_window, i as int),
            None => !any_eligible(paths@, need_window),
        },
{
    let mut best: Option<usize> = None;
    let mut i: usize = 0;
    while i < paths.len()
        invariant
            i <= paths@.len(),
            match best {
                Some(b) => {
                    &&& b < i
                    &&& is_fastest(paths@.take(i as int), need_window, b as int)
                },
                None => !any_eligible(paths@.take(i as int), need_window),
            },
        decreases paths@.len() - i,
    {
        let p: PathStats = paths[i];
        let ok: bool = p.active && (!need_window || p.bytes_in_flight < p.cwnd);
        assert(ok == p.eligible(need_window));
        let ghost before = paths@.take(i as int);
        let ghost after = paths@.take(i + 1);
        assert(forall|j: int| 0 <= j < i ==> #[trigger] after[j] == before[j]);
        assert(after[i as int] == p);
        if ok {
            match best {
                Some(b) => {
                    if p.rtt < paths[b].rtt {
                        best = Some(i);
                    }
                },
                None => {
                    assert forall|j: int| 0 <= j < i implies !(#[trigger] after[j]).eligible(
                        need_window,
                    ) by {
                        assert(before[j] == after[j]);
                    }
                    best = Some(i);
                },
            }
        }
        proof {
            match best {
                Some(b) => {
                    assert forall|j: int|
                        0 <= j < after.len() && (#[trigger] after[j]).eligible(
                            need_window,
                        ) implies if j < b {
                        after[b as int].rtt < after[j].rtt
                    } else {
                        after[b as int].rtt <= after[j].rtt
                    } by {
                        if j < i {
                            assert(before[j].eligible(need_window));
                        }
                    }
                },
                None => {
                    assert forall|j: int| 0 <= j < after.len() implies !(
                    #[trigger] after[j]).eligible(need_window) by {
                        if j < i {
                            assert(!before[j].eligible(need_window));
                        }
                    }
                },
            }
        }
        i = i + 1;
    }
    assert(paths@.take(i as int) =~= paths@);
    best
}

/// Finds the active path with the largest round-trip time, the last one where
/// several share it.
pub fn slowest(paths: &Vec<PathStats>) -> (found: Option<usize>)
    ensures
        match found {
            Some(i) => is_slowest(paths@, i as int),
            None => !any_eligible(paths@, false),
        },
{
    let mut worst: Option<usize> = None;
    let mut i: usize = 0;
    while i < paths.len()
        invariant
            i <= paths@.len(),
            match worst {
                Some(w) => {
                    &&& w < i
                    &&& paths@[w as int].active
                    &&& forall|j: int|
                        0 <= j < i && (#[trigger] paths@[j]).active ==> if j > w {
                            paths@[j].rtt < paths@[w as int].rtt
                        } else {
                            paths@[j].rtt <= paths@[w as int].rtt
                        }
                },
                None => forall|j: int| 0 <= j < i ==> !(#[trigger] paths@[j]).active,
            },
        decreases paths@.len() - i,
    {
        if paths[i].active {
            match worst {
                Some(w) => {
                    if paths[w].rtt <= paths[i].rtt {
                        worst = Some(i);
                    }
                },
                None => {
                    worst = Some(i);
                },
            }
        }
        i = i + 1;
    }
    worst
}

/// The bytes between the back and the highest offset, added up over the streams
/// whose offsets are reported.
pub open spec fn pending_spec(offsets: Seq<Option<(u64, u64)>>) -> int
    decreases offsets.len(),
{
    if offsets.len() == 0 {
        0
    } else {
        pending_spec(offsets.drop_last()) + match offsets.last() {
            Some((max_off, off_back)) => max_off - off_back,
            None => 0,
        }
    }
}

/// No back offset lies beyond the highest one, and the pending bytes add up to
/// no more than a 64-bit count holds.
pub open spec fn offsets_valid(offsets: Seq<Option<(u64, u64)>>) -> bool {
    &&& forall|i: int|
        0 <= i < offsets.len() ==> (#[trigger] offsets[i] matches Some((max_off, off_back))
            ==> off_back <= max_off)
    &&& pending_spec(offsets) <= u64::MAX
}

/// While no back offset lies beyond the highest one, a longer list of streams
/// has no fewer pending bytes.
proof fn lemma_pending_monotone(offsets: Seq<Option<(u64, u64)>>, n: int)
    requires
        0 <= n <= offsets.len(),
        forall|i: int|
            0 <= i < offsets.len() ==> (#[trigger] offsets[i] matches Some((max_off, off_back))
                ==> off_back <= max_off),
    ensures
        0 <= pending_spec(offsets.take(n)) <= pending_spec(offsets),
    decreases offsets.len(),
{
    if offsets.len() == 0 {
        assert(offsets.take(n) =~= offsets);
    } else if n == offsets.len() {
        assert(offsets.take(n) =~= offsets);
        lemma_pending_monotone(offsets.drop_last(), n - 1);
        assert(offsets.last() == offsets[offsets.len() - 1]);
    } else {
        assert(offsets.drop_last().take(n) =~= offsets.take(n));
        lemma_pending_monotone(offsets.drop_last(), n);
        assert(offsets.last() == offsets[offsets.len() - 1]);
    }
}

/// Whether `offsets_valid` holds.
pub fn check_offsets(offsets: &Vec<Option<(u64, u64)>>) -> (ok: bool)
    ensures
        ok == offsets_valid(offsets@),
{
    let mut total: u64 = 0;
    let mut fits: bool = true;
    let mut i: usize = 0;
    while i < offsets.len()
        invariant
            i <= offsets@.len(),
            forall|j: int| 0 <= j < i ==> (#[trigger] offsets@[j] matches Some((m, b)) ==> b <= m),
            fits ==> total == pending_spec(offsets@.take(i as int)),
            !fits ==> pending_spec(offsets@.take(i as int)) > u64::MAX,
        decreases offsets@.len() - i,
    {
        assert(offsets@.take(i + 1).drop_last() =~= offsets@.take(i as int));
        assert(offsets@.take(i + 1).last() == offsets@[i as int]);
        match offsets[i] {
            Some((max_off, off_back)) => {
                if max_off < off_back {
                    return false;
                }
                let open: u64 = max_off - off_back;
                if fits && open <= u64::MAX - total {
                    total = total + open;
                } else {
                    fits = false;
                }
            },
            None => {},
        }
        i = i + 1;
    }
    assert(offsets@.take(i as int) =~= offsets@);
    fits
}

/// Adds up the pending bytes of the streams.
pub fn pending_bytes(offsets: &Vec<Option<(u64, u64)>>) -> (total: u64)
    requires
        offsets_valid(offsets@),
    ensures
        total == pending_spec(offsets@),
{
    let mut total: u64 = 0;
    let mut i: usize = 0;
    assert(offsets@.take(0) =~= Seq::<Option<(u64, u64)>>::empty());
    while i < offsets.len()
        invariant
            i <= offsets@.len(),
            offsets_valid(offsets@),
            total == pending_spec(offsets@.take(i as int)),
        decreases offsets@.len() - i,
    {
        proof {
            lemma_pending_monotone(offsets@, i + 1);
            assert(offsets@.take(i + 1).drop_last() =~= offsets@.take(i as int));
            assert(offsets@.take(i + 1).last() == offsets@[i as int]);
        }
        match offsets[i] {
            Some((max_off, off_back)) => {
                total = total + (max_off - off_back);
            },
            None => {},
        }
        i = i + 1;
    }
    assert(offsets@.take(i as int) =~= offsets@);
    total
}

/// What is pending is what lies between the two offsets of each stream, added up over
/// the streams in any grouping; streams that report nothing add nothing.
pub proof fn law_pending_adds_up(
    a: Seq<Option<(u64, u64)>>,
    b: Seq<Option<(u64, u64)>>,
    max_off: u64,
    off_back: u64,
)
    ensures
        pending_spec(Seq::empty()) == 0,
        pending_spec(seq![None]) == 0,
        pending_spec(seq![Some((max_off, off_back))]) == max_off - off_back,
        pending_spec(a + b) == pending_spec(a) + pending_spec(b),
    decreases b.len(),
{
    let one = seq![Some((max_off, off_back))];
    let none: Seq<Option<(u64, u64)>> = seq![None];
    assert(one.drop_last() =~= Seq::<Option<(u64, u64)>>::empty());
    assert(none.drop_last() =~= Seq::<Option<(u64, u64)>>::empty());
    assert(one.last() == Some((max_off, off_back)));
    assert(none.last() is None);
    if b.len() == 0 {
        assert(a + b =~= a);
    } else {
        law_pending_adds_up(a, b.drop_last(), max_off, off_back);
        assert((a + b).drop_last() =~= a + b.drop_last());
        assert((a + b).last() == b.last());
    }
}

/// Offsets are usable exactly where no stream's back offset lies beyond its highest
/// one and what is pending fits in 64 bits.
pub proof fn law_usable_offsets(offsets: Seq<Option<(u64, u64)>>)
    ensures
        offsets_valid(offsets) <==> {
            &&& forall|i: int|
                0 <= i < offsets.len() && (#[trigger] offsets[i]) is Some ==> (offsets[i]->0).1
                    <= (offsets[i]->0).0
            &&& pending_spec(offsets) < 0x1_0000_0000_0000_0000
        },
{
    if offsets_valid(offsets) {
        assert forall|i: int| 0 <= i < offsets.len() && (#[trigger] offsets[i]) is Some implies (
        offsets[i]->0).1 <= (offsets[i]->0).0 by {
            assert(offsets[i] matches Some((m, b)) ==> b <= m);
        }
    }
}

/// The fastest eligible path is an active one, with room where room is asked for, and
/// no such path has a smaller round-trip time, nor the same one further in front.
pub proof fn law_fastest_path(paths: Seq<PathStats>, need_window: bool, i: int)
    ensures
        is_fastest(paths, need_window, i) <==> {
            &&& 0 <= i < paths.len()
            &&& paths[i].active
            &&& need_window ==> paths[i].bytes_in_flight < paths[i].cwnd
            &&& forall|j: int|
                0 <= j < paths.len() && (#[trigger] paths[j]).active && (need_window
                    ==> paths[j].bytes_in_flight < paths[j].cwnd) ==> paths[i].rtt <= paths[j].rtt
                    && (j < i ==> paths[i].rtt != paths[j].rtt)
        },
        is_fastest(paths, need_window, i) ==> fastest_spec(paths, need_window) == paths[i],
{
    if is_fastest(paths, need_window, i) {
        lemma_fastest_unique(paths, need_window, i);
        assert forall|j: int|
            0 <= j < paths.len() && (#[trigger] paths[j]).active && (need_window
                ==> paths[j].bytes_in_flight < paths[j].cwnd) implies paths[i].rtt <= paths[j].rtt && (
        j < i ==> paths[i].rtt != paths[j].rtt) by {
            assert(paths[j].eligible(need_window));
        }
    }
}

/// The slowest path is an active one, and no active path has a larger round-trip time,
/// nor the same one further behind.
pub proof fn law_slowest_path(paths: Seq<PathStats>, i: int)
    ensures
        is_slowest(paths, i) <==> {
            &&& 0 <= i < paths.len()
            &&& paths[i].active
            &&& forall|j: int|
                0 <= j < paths.len() && (#[trigger] paths[j]).active ==> paths[j].rtt
                    <= paths[i].rtt && (j > i ==> paths[i].rtt != paths[j].rtt)
        },
        is_slowest(paths, i) ==> slowest_spec(paths) == paths[i],
{
    if is_slowest(paths, i) {
        lemma_slowest_unique(paths, i);
    }
}

} // verus!
