use mpquic::addr::{IpAddr, SocketAddr};
use mpquic::ecf::{ECFScheduler, ECFSchedulerStats};
use mpquic::latency::lowest_latency_scheduler;
use mpquic::path::{check_offsets, pending_bytes, ConnSnapshot, PathStats};
use mpquic::rl::{Data, RLQuery};
use mpquic::scheduler::{MinRttScheduler, RoundRobinScheduler, Scheduler, SchedulerKind};

const MS: u128 = 1_000_000;

fn addr(last: u8, port: u16) -> SocketAddr {
    SocketAddr { ip: IpAddr::V4([10, 0, 0, last]), port, flowinfo: 0, scope_id: 0 }
}

/// A path that has been sampled and has room, told apart by `n`.
fn path(n: u8, rtt: u128) -> PathStats {
    PathStats {
        local_addr: addr(n, 4433),
        peer_addr: addr(100 + n, 5000 + n as u16),
        active: true,
        sent: 10,
        rtt,
        rttvar: 5 * MS,
        cwnd: 12000,
        bytes_in_flight: 0,
        sent_bytes: 0,
        recv_bytes: 0,
    }
}

fn id(n: u8) -> (SocketAddr, SocketAddr) {
    (addr(n, 4433), addr(100 + n, 5000 + n as u16))
}

fn conn(paths: Vec<PathStats>) -> ConnSnapshot {
    ConnSnapshot { paths, send_offsets: Vec::new(), elapsed: 7 }
}

fn ecf(waiting: bool) -> ECFScheduler {
    ECFScheduler { waiting, records: Vec::new() }
}

#[test]
fn schedulers_go_by_their_names() {
    let kind = |name: &str| SchedulerKind::from_name(&name.to_string());
    assert_eq!(kind("rr"), Some(SchedulerKind::RoundRobin));
    assert_eq!(kind("minRtt"), Some(SchedulerKind::MinRtt));
    assert_eq!(kind("blest"), Some(SchedulerKind::Blest));
    assert_eq!(kind("ecf"), Some(SchedulerKind::Ecf));
    assert_eq!(kind("rl"), Some(SchedulerKind::Rl));
    assert_eq!(kind("minrtt"), None);
    assert_eq!(kind(""), None);
}

#[test]
fn round_robin_takes_every_path_then_none() {
    let c = conn(vec![path(0, 30), path(1, 10), path(2, 20)]);
    let mut s = RoundRobinScheduler { next: 0 };
    s.start(&c);
    assert_eq!(s.next, 3);
    for _ in 0..2 {
        assert_eq!(s.next_path(&c), Some(id(0)));
        assert_eq!(s.next_path(&c), Some(id(1)));
        assert_eq!(s.next_path(&c), Some(id(2)));
        assert_eq!(s.next_path(&c), None);
    }
}

#[test]
fn round_robin_follows_a_shrinking_set_of_paths() {
    let mut s = RoundRobinScheduler { next: 5 };
    assert_eq!(s.next_path(&conn(vec![path(0, 1)])), Some(id(0)));
    assert_eq!(s.next_path(&conn(Vec::new())), None);
    assert_eq!(s.next, 0);
}

#[test]
fn min_rtt_tries_every_path_first() {
    let mut fresh = path(1, 90 * MS);
    fresh.sent = 2;
    fresh.active = false;
    let c = conn(vec![path(0, 10 * MS), fresh, path(2, 5 * MS)]);
    let mut s = MinRttScheduler {};
    s.start(&c);
    assert_eq!(s.next_path(&c), Some(id(1)));
}

#[test]
fn min_rtt_takes_the_fastest_open_path() {
    let mut inactive = path(0, MS);
    inactive.active = false;
    let mut full = path(1, 2 * MS);
    full.bytes_in_flight = full.cwnd;
    let c = conn(vec![inactive, full, path(2, 9 * MS), path(3, 4 * MS), path(4, 4 * MS)]);
    assert_eq!(MinRttScheduler {}.next_path(&c), Some(id(3)));
    assert_eq!(MinRttScheduler {}.next_path(&conn(vec![inactive, full])), None);
    assert_eq!(MinRttScheduler {}.next_path(&conn(Vec::new())), None);
}

#[test]
fn ecf_tries_every_path_first() {
    let mut fresh = path(1, 90 * MS);
    fresh.sent = 0;
    let c = conn(vec![path(0, 10 * MS), fresh]);
    let mut s = ecf(true);
    s.start(&c);
    assert!(s.is_ready(&c));
    assert_eq!(s.next_path(&c), Some(id(1)));
    assert!(s.waiting);
    assert_eq!(
        s.records,
        vec![ECFSchedulerStats {
            elapsed: 7,
            count: 2,
            waiting: true,
            best_path_cwnd: 0,
            second_path_cwnd: 0,
            best_path_rtt: 0,
            second_path_rtt: 0,
            best_path_blocked: false,
            send_on_second_path: false,
            term1: 0,
            term2: 0,
            term3: 0,
            term4: 0,
            best_path_peer_addr: 0,
            second_path_peer_addr: 0,
        }]
    );
}

#[test]
fn ecf_keeps_to_an_open_best_path() {
    let c = conn(vec![path(0, 50 * MS), path(1, 10 * MS)]);
    for waiting in [false, true] {
        let mut s = ecf(waiting);
        assert_eq!(s.next_path(&c), Some(id(1)));
        assert_eq!(s.waiting, waiting);
        let r = s.records[0];
        assert!(!r.best_path_blocked && !r.send_on_second_path);
        assert_eq!((r.best_path_rtt, r.second_path_rtt), (10, 50));
        assert_eq!((r.best_path_peer_addr, r.second_path_peer_addr), (5001, 5000));
        assert_eq!((r.term1, r.term2, r.term3, r.term4), (0, 0, 0, 0));
    }
}

/// The best path is full. Its window is 1000 bytes, that of the second 2000.
fn blocked(best_rtt: u128, second_rtt: u128, offsets: Vec<Option<(u64, u64)>>) -> ConnSnapshot {
    let mut best = path(0, best_rtt * MS);
    best.cwnd = 1000;
    best.bytes_in_flight = 1000;
    let mut second = path(1, second_rtt * MS);
    second.cwnd = 2000;
    second.rttvar = 9 * MS;
    ConnSnapshot { paths: vec![best, second], send_offsets: offsets, elapsed: 3 }
}

#[test]
fn ecf_waits_for_a_much_faster_path() {
    let c = blocked(10, 100, vec![Some((3000, 1000)), None, Some((500, 0))]);
    let mut s = ecf(false);
    assert!(s.is_ready(&c));
    assert_eq!(s.next_path(&c), None);
    assert!(s.waiting);
    let r = s.records[0];
    assert_eq!(r.term1, 4 * (2500 + 1000) * 10);
    assert_eq!(r.term2, 1000 * (100 + 9) * 4);
    assert_eq!(r.term3, 2500 * 100);
    assert_eq!(r.term4, 2000 * (20 + 9));
    assert!(r.waiting && r.best_path_blocked && !r.send_on_second_path);
    // It goes on waiting, now with a larger margin.
    assert_eq!(s.next_path(&c), None);
    assert!(s.waiting);
    assert_eq!(s.records[1].term2, 1000 * (100 + 9) * 5);
}

#[test]
fn ecf_goes_on_waiting_where_it_would_start_to() {
    for best_rtt in [1, 10, 20, 27, 28, 40, 90] {
        let c = blocked(best_rtt, 100, vec![Some((3000, 1000))]);
        if ecf(false).next_path(&c).is_none() {
            assert_eq!(ecf(true).next_path(&c), None);
        }
    }
    // In between, only a scheduler that already waits holds back.
    let c = blocked(40, 100, vec![Some((3000, 1000))]);
    assert_eq!(ecf(false).next_path(&c), Some(id(1)));
    assert_eq!(ecf(true).next_path(&c), None);
}

#[test]
fn ecf_uses_the_second_path_where_it_pays() {
    // Similar paths: the first comparison already favours the second path.
    let c = blocked(50, 60, vec![Some((3000, 1000))]);
    let mut s = ecf(true);
    assert_eq!(s.next_path(&c), Some(id(1)));
    assert!(!s.waiting);
    let r = s.records[0];
    assert_eq!((r.term1, r.term2), (4 * (2000 + 1000) * 50, 1000 * 69 * 5));
    assert_eq!((r.term3, r.term4), (0, 0));
    assert!(r.send_on_second_path && !r.waiting);
    // The best path would finish first, but the second one is no burden.
    let c = blocked(100, 200, Vec::new());
    let mut s = ecf(true);
    assert_eq!(s.next_path(&c), Some(id(1)));
    assert!(s.waiting);
    let r = s.records[0];
    assert_eq!((r.term1, r.term2), (4 * (1000 + 1000) * 100, 1000 * 209 * 5));
    assert_eq!((r.term3, r.term4), (2000 * 200, 2000 * 209));
    assert!(r.send_on_second_path && r.waiting);
}

#[test]
fn ecf_is_not_ready_without_active_paths_or_room_to_compute() {
    let mut off = path(0, MS);
    off.active = false;
    assert!(!ecf(false).is_ready(&conn(vec![off])));
    assert!(!ecf(false).is_ready(&conn(Vec::new())));
    let mut huge = path(0, MS);
    huge.cwnd = usize::MAX;
    huge.bytes_in_flight = usize::MAX;
    assert!(!ecf(false).is_ready(&conn(vec![huge])));
    assert!(!ecf(false).is_ready(&blocked(10, 100, vec![Some((1, 2))])));
    assert!(!ecf(false).is_ready(&blocked(10, 100, vec![Some((u64::MAX, 0)), Some((1, 0))])));
    assert!(ecf(false).is_ready(&blocked(10, 100, vec![None])));
}

#[test]
fn ties_go_to_the_first_best_and_the_last_second_path() {
    let c = conn(vec![path(0, 10 * MS), path(1, 10 * MS), path(2, 10 * MS)]);
    let q = RLQuery::new(&c).unwrap();
    assert_eq!(q.best, id(0));
    assert_eq!(q.second, id(2));
}

#[test]
fn pending_bytes_add_up() {
    let offsets = vec![Some((10, 4)), None, Some((7, 7)), Some((100, 1))];
    assert!(check_offsets(&offsets));
    assert_eq!(pending_bytes(&offsets), 105);
    assert!(!check_offsets(&vec![Some((3, 4))]));
    assert!(!check_offsets(&vec![Some((u64::MAX, 0)), Some((5, 4))]));
}

#[test]
fn the_agent_selects_between_two_paths() {
    let mut off = path(3, 500 * MS);
    off.active = false;
    let c = conn(vec![path(0, 20 * MS + 999_999), path(1, 80 * MS), off]);
    let q = RLQuery::new(&c).unwrap();
    assert_eq!(q.data, Data { best_rtt: 20, second_rtt: 80 });
    assert_eq!(q.answer(Some(0)), Some(id(0)));
    assert_eq!(q.answer(Some(1)), Some(id(1)));
    assert_eq!(q.answer(Some(2)), None);
    assert_eq!(q.answer(None), None);
    assert_eq!(RLQuery::new(&conn(vec![off])), None);
}

#[test]
fn low_latency_goes_first_and_ties_keep_their_order() {
    let order =
        lowest_latency_scheduler(vec![path(0, 30), path(1, 10), path(2, 30), path(3, 20), path(4, 10)]);
    assert_eq!(order, vec![id(1), id(4), id(3), id(0), id(2)]);
    assert_eq!(lowest_latency_scheduler(Vec::new()), Vec::new());
}
