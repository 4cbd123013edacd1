//! The client's scheduling order: paths with a lower round-trip time go first.

use itertools::Itertools;
use vstd::prelude::*;

use crate::path::{PathId, PathStats};

verus! {

/// The paths whose round-trip time is `rtt`, in order.
pub open spec fn with_rtt(paths: Seq<PathStats>, rtt: u128) -> Seq<PathStats> {
    paths.filter(|p: PathStats| p.rtt == rtt)
}

/// `sorted` holds the paths of `paths` by increasing round-trip time, and paths
/// that share one in the order that they had.
pub open spec fn is_sorted_by_rtt(paths: Seq<PathStats>, sorted: Seq<PathStats>) -> bool {
    &&& forall|i: int, j: int|
        0 <= i <= j < sorted.len() ==> (#[trigger] sorted[i]).rtt <= (#[trigger] sorted[j]).rtt
    &&& forall|rtt: u128| #[trigger] with_rtt(sorted, rtt) == with_rtt(paths, rtt)
}

/// The addresses of the paths, in order.
pub open spec fn ids(paths: Seq<PathStats>) -> Seq<PathId> {
    paths.map_values(|p: PathStats| p.id_spec())
}

/// `Itertools::sorted_by_key` with the round-trip time as the key: it hands the
/// items out in ascending order of the key, and, as the standard library's
/// stable sort does, leaves items with equal keys in their order.
#[verifier::external_body]
fn sorted_by_rtt(paths: Vec<PathStats>) -> (sorted: Vec<PathStats>)
    ensures
        is_sorted_by_rtt(paths@, sorted@),
{
    paths.into_iter().sorted_by_key(|p| p.rtt).collect()
}

/// Orders the paths on which the client should send, lowest latency first.
pub fn lowest_latency_scheduler(paths: Vec<PathStats>) -> (order: Vec<PathId>)
    ensures
        exists|sorted: Seq<PathStats>| #[trigger]
            is_sorted_by_rtt(paths@, sorted) && order@ == ids(sorted),
        order@.len() == paths@.len(),
        exists|sorted: Seq<PathStats>|
            #![trigger sorted.to_multiset()]
            {
                &&& sorted.to_multiset() == paths@.to_multiset()
                &&& sorted.len() == order@.len()
                &&& forall|i: int|
                    0 <= i < order@.len() ==> (#[trigger] order@[i]).0 == sorted[i].local_addr
                        && order@[i].1 == sorted[i].peer_addr
                &&& forall|i: int, j: int|
                    0 <= i <= j < sorted.len() ==> (#[trigger] sorted[i]).rtt <= (
                    #[trigger] sorted[j]).rtt
            },
{
    let sorted: Vec<PathStats> = sorted_by_rtt(paths);
    let mut order: Vec<PathId> = Vec::new();
    let mut i: usize = 0;
    while i < sorted.len()
        invariant
            i <= sorted@.len(),
            order@ == ids(sorted@.take(i as int)),
        decreases sorted@.len() - i,
    {
        order.push(sorted[i].id());
        assert(sorted@.take(i + 1) =~= sorted@.take(i as int).push(sorted@[i as int]));
        assert(order@ =~= ids(sorted@.take(i + 1)));
        i = i + 1;
    }
    assert(sorted@.take(i as int) =~= sorted@);
    proof {
        law_sorting_keeps_paths(paths@, sorted@);
    }
    order
}

/// The paths with a given round-trip time, split off the first path.
proof fn lemma_with_rtt_first(paths: Seq<PathStats>, rtt: u128)
    requires
        paths.len() > 0,
    ensures
        with_rtt(paths, rtt) == (if paths[0].rtt == rtt {
            seq![paths[0]] + with_rtt(paths.drop_first(), rtt)
        } else {
            with_rtt(paths.drop_first(), rtt)
        }),
{
    let p = |p: PathStats| p.rtt == rtt;
    let head = seq![paths[0]];
    assert(paths =~= head + paths.drop_first());
    Seq::filter_distributes_over_add(head, paths.drop_first(), p);
    assert(head.drop_last() =~= Seq::<PathStats>::empty());
    reveal_with_fuel(Seq::filter, 2);
    assert(head.last() == paths[0]);
    if p(paths[0]) {
        assert(head.filter(p) =~= head);
    } else {
        assert(head.filter(p) =~= Seq::<PathStats>::empty());
        assert(Seq::<PathStats>::empty() + with_rtt(paths.drop_first(), rtt) =~= with_rtt(
            paths.drop_first(),
            rtt,
        ));
    }
}

/// Where a path has a given round-trip time, a sorted list does not start later.
proof fn lemma_starts_no_later(sorted: Seq<PathStats>, rtt: u128)
    requires
        forall|i: int, j: int|
            0 <= i <= j < sorted.len() ==> (#[trigger] sorted[i]).rtt <= (#[trigger] sorted[j]).rtt,
        with_rtt(sorted, rtt).len() > 0,
    ensures
        sorted.len() > 0,
        sorted[0].rtt <= rtt,
{
    let p = |p: PathStats| p.rtt == rtt;
    sorted.lemma_filter_contains_rev(p, sorted.filter(p)[0]);
    sorted.lemma_filter_pred(p, 0);
    let k = choose|k: int| 0 <= k < sorted.len() && sorted[k] == sorted.filter(p)[0];
    assert(sorted[0].rtt <= sorted[k].rtt);
}

/// The order is determined by the paths: two lists that are both sorted by
/// round-trip time and keep ties in place are the same.
pub proof fn law_sorted_by_rtt_is_unique(
    paths: Seq<PathStats>,
    a: Seq<PathStats>,
    b: Seq<PathStats>,
)
    requires
        is_sorted_by_rtt(paths, a),
        is_sorted_by_rtt(paths, b),
    ensures
        a == b,
    decreases a.len(),
{
    if a.len() == 0 {
        if b.len() > 0 {
            lemma_with_rtt_first(b, b[0].rtt);
            assert(with_rtt(b, b[0].rtt) == with_rtt(paths, b[0].rtt));
            assert(with_rtt(a, b[0].rtt) == with_rtt(paths, b[0].rtt));
            lemma_starts_no_later(a, b[0].rtt);
        }
        assert(a =~= b);
    } else {
        let k = a[0].rtt;
        lemma_with_rtt_first(a, k);
        assert(with_rtt(a, k) == with_rtt(paths, k));
        assert(with_rtt(b, k) == with_rtt(paths, k));
        lemma_starts_no_later(b, k);
        let m = b[0].rtt;
        lemma_with_rtt_first(b, m);
        assert(with_rtt(a, m) == with_rtt(paths, m));
        assert(with_rtt(b, m) == with_rtt(paths, m));
        lemma_starts_no_later(a, m);
        assert(k == m);
        assert(with_rtt(a, k)[0] == a[0]);
        assert(with_rtt(b, k)[0] == b[0]);
        let ra = a.drop_first();
        let rb = b.drop_first();
        assert forall|rtt: u128| #[trigger] with_rtt(rb, rtt) == with_rtt(ra, rtt) by {
            lemma_with_rtt_first(a, rtt);
            lemma_with_rtt_first(b, rtt);
            assert(with_rtt(a, rtt) == with_rtt(paths, rtt));
            assert(with_rtt(b, rtt) == with_rtt(paths, rtt));
            if rtt == k {
                assert(with_rtt(ra, rtt) =~= with_rtt(a, rtt).drop_first());
                assert(with_rtt(rb, rtt) =~= with_rtt(b, rtt).drop_first());
            }
        }
        assert(is_sorted_by_rtt(ra, ra));
        assert(is_sorted_by_rtt(ra, rb));
        law_sorted_by_rtt_is_unique(ra, ra, rb);
        assert(a =~= seq![a[0]] + ra);
        assert(b =~= seq![b[0]] + rb);
    }
}

/// A path occurs as often among all paths as among those that share its
/// round-trip time.
proof fn lemma_count_by_rtt(paths: Seq<PathStats>, p: PathStats)
    ensures
        paths.to_multiset().count(p) == with_rtt(paths, p.rtt).to_multiset().count(p),
    decreases paths.len(),
{
    broadcast use vstd::seq_lib::group_to_multiset_ensures;

    reveal(Seq::filter);
    if paths.len() > 0 {
        lemma_count_by_rtt(paths.drop_last(), p);
        assert(paths =~= paths.drop_last().push(paths.last()));
    }
}

/// Sorting neither loses nor adds a path.
pub proof fn law_sorting_keeps_paths(paths: Seq<PathStats>, sorted: Seq<PathStats>)
    requires
        is_sorted_by_rtt(paths, sorted),
    ensures
        sorted.to_multiset() == paths.to_multiset(),
        sorted.len() == paths.len(),
{
    broadcast use vstd::seq_lib::group_to_multiset_ensures;

    assert forall|p: PathStats|
        sorted.to_multiset().count(p) == #[trigger] paths.to_multiset().count(p) by {
        lemma_count_by_rtt(sorted, p);
        lemma_count_by_rtt(paths, p);
        assert(with_rtt(sorted, p.rtt) == with_rtt(paths, p.rtt));
    }
    assert(sorted.to_multiset() =~= paths.to_multiset());
    assert(sorted.to_multiset().len() == sorted.len());
    assert(paths.to_multiset().len() == paths.len());
}

} // verus!
