use mpquic::addr::{IpAddr, SocketAddr};
use mpquic::client::{
    path_step, response_complete, socket_for, ClientSession, PacketOutcome, PathStep,
};
use mpquic::config::{client_settings, server_settings};
use mpquic::events::{client_path_action, server_path_action, PathAction, PathEvent};
use mpquic::pacing::{
    initial_burst, plan_burst, poll_timeout, reduced_burst, send_budget, timer_expired, SendEvent,
    SendRound, SendStep,
};
use mpquic::path::PathStats;
use mpquic::qlog::{description, file_name};
use mpquic::stats::{last_offsets, PathStatsRecord};

fn addr(last: u8) -> SocketAddr {
    SocketAddr { ip: IpAddr::V4([10, 0, 0, last]), port: 4433, flowinfo: 0, scope_id: 0 }
}

#[test]
fn the_server_acts_on_path_events() {
    let id = (addr(1), addr(2));
    let other = (addr(3), addr(2));
    assert_eq!(server_path_action(&PathEvent::New(id)), PathAction::Probe(id));
    assert_eq!(server_path_action(&PathEvent::Validated(id)), PathAction::Activate(id));
    assert_eq!(
        server_path_action(&PathEvent::PeerPathStatus(id, 2)),
        PathAction::FollowStatus(id, 2)
    );
    for event in [
        PathEvent::FailedValidation(id),
        PathEvent::Closed(id, 1, vec![0]),
        PathEvent::ReusedSourceConnectionId(1, id, other),
        PathEvent::PeerMigrated(id),
    ] {
        assert_eq!(server_path_action(&event), PathAction::Nothing);
    }
}

#[test]
fn the_client_only_activates_paths() {
    let id = (addr(1), addr(2));
    assert_eq!(client_path_action(&PathEvent::Validated(id)), PathAction::Activate(id));
    for event in [
        PathEvent::FailedValidation(id),
        PathEvent::Closed(id, 1, vec![0]),
        PathEvent::ReusedSourceConnectionId(1, id, id),
        PathEvent::PeerPathStatus(id, 2),
    ] {
        assert!(!event.server_only());
        assert_eq!(client_path_action(&event), PathAction::Nothing);
    }
    assert!(PathEvent::New(id).server_only());
    assert!(PathEvent::PeerMigrated(id).server_only());
}

#[test]
fn bursts_are_measured_in_datagrams() {
    assert_eq!(initial_burst(), 49130);
    assert_eq!(reduced_burst(49130, 1350), 36846);
    assert_eq!(reduced_burst(15000, 1350), 13500);
    assert_eq!(reduced_burst(7, 0), 3);
    assert_eq!(send_budget(20000, 49130, 1350), 18900);
    assert_eq!(send_budget(60000, 49130, 1350), 48600);
    assert_eq!(send_budget(1349, 49130, 1350), 0);
    let (burst, round) = plan_burst(49130, true, 100000, 1350);
    assert_eq!(burst, 36846);
    assert_eq!(round, SendRound { budget: 36450, total: 0, continue_write: false });
    let (burst, round) = plan_burst(49130, false, 1400, 1350);
    assert_eq!((burst, round.budget), (49130, 1350));
}

#[test]
fn waiting_depends_on_what_is_left_to_send() {
    assert_eq!(poll_timeout(true, Some(5)), Some(0));
    assert_eq!(poll_timeout(true, None), Some(0));
    assert_eq!(poll_timeout(false, Some(5)), Some(5));
    assert_eq!(poll_timeout(false, None), None);
    assert!(timer_expired(true, false));
    assert!(!timer_expired(true, true));
    assert!(!timer_expired(false, false));
}

#[test]
fn a_burst_runs_until_its_budget_is_used_up() {
    let mut r = SendRound::new(2000);
    assert_eq!(r.first_step(), SendStep::NextPacket);
    assert_eq!(r.on_event(SendEvent::Packet(1350)), SendStep::Transmit);
    assert_eq!(r.on_event(SendEvent::Taken), SendStep::NextPacket);
    assert!(!r.continue_write);
    assert_eq!(r.on_event(SendEvent::Packet(1350)), SendStep::Transmit);
    assert_eq!(r.on_event(SendEvent::Taken), SendStep::Stop);
    assert_eq!(r, SendRound { budget: 2000, total: 2700, continue_write: true });
    assert_eq!(SendRound::new(0).first_step(), SendStep::Stop);
}

#[test]
fn a_burst_that_ends_early_is_not_continued() {
    let mut r = SendRound::new(1000);
    assert_eq!(r.on_event(SendEvent::NoPath), SendStep::Stop);
    assert_eq!(r.on_event(SendEvent::Done), SendStep::Stop);
    assert_eq!(r.on_event(SendEvent::Failed), SendStep::CloseAndStop);
    assert_eq!(r, SendRound::new(1000));
    assert_eq!(r.on_event(SendEvent::Packet(500)), SendStep::Transmit);
    assert_eq!(r.on_event(SendEvent::WouldBlock), SendStep::NextPacket);
    assert_eq!(r.on_event(SendEvent::Packet(500)), SendStep::Transmit);
    assert_eq!(r.on_event(SendEvent::WouldBlock), SendStep::Stop);
    assert_eq!(r.total, 1000);
    assert!(!r.continue_write);
}

#[test]
fn the_request_is_sent_once() {
    let mut s = ClientSession::new(2);
    assert!(!s.take_request(false, 2));
    assert!(!s.take_request(true, 1));
    assert!(s.take_request(true, 2));
    assert!(s.req_sent);
    assert!(!s.take_request(true, 3));
}

#[test]
fn every_socket_is_probed_once() {
    let mut s = ClientSession::new(3);
    assert_eq!(s.probe_due(0), None);
    assert_eq!(s.probe_due(1), Some(1));
    s.probe_started();
    assert_eq!(s.probe_due(4), Some(2));
    s.probe_started();
    assert_eq!(s.probe_due(4), None);
    assert_eq!(ClientSession::new(1).probe_due(1), None);
}

#[test]
fn the_client_leaves_when_the_response_is_complete() {
    assert!(response_complete(4, true));
    assert!(!response_complete(4, false));
    assert!(!response_complete(0, true));
}

#[test]
fn the_client_drains_paths_one_by_one() {
    assert_eq!(path_step(PacketOutcome::Sent), PathStep::SamePath);
    assert_eq!(path_step(PacketOutcome::Done), PathStep::NextPath);
    assert_eq!(path_step(PacketOutcome::WouldBlock), PathStep::NextPath);
    assert_eq!(path_step(PacketOutcome::Failed), PathStep::CloseAndNextPath);
}

#[test]
fn sockets_are_found_by_address() {
    let mut v6 = addr(1);
    v6.ip = IpAddr::V6([1; 16]);
    let mut scoped = v6;
    scoped.scope_id = 3;
    let bound = vec![addr(1), addr(2), v6, addr(1)];
    assert_eq!(socket_for(&bound, &addr(2)), Some(1));
    assert_eq!(socket_for(&bound, &addr(1)), Some(3));
    assert_eq!(socket_for(&bound, &v6), Some(2));
    assert_eq!(socket_for(&bound, &scoped), None);
    assert_eq!(socket_for(&bound, &addr(9)), None);
}

#[test]
fn path_records_hide_the_assumed_round_trip_time() {
    let mut p = PathStats {
        local_addr: addr(1),
        peer_addr: addr(2),
        active: true,
        sent: 9,
        rtt: 333_999_999,
        rttvar: 166_000_000,
        cwnd: 14,
        bytes_in_flight: 5,
        sent_bytes: 100,
        recv_bytes: 200,
    };
    let mut want = PathStatsRecord {
        elapsed: 8,
        local: addr(1),
        remote: addr(2),
        sent_bytes: 100,
        recv_bytes: 200,
        cwnd: 14,
        bif: 5,
        rtt: 0,
        rttvar: 0,
        quantum: 77,
    };
    assert_eq!(PathStatsRecord::new(8, &p, 77), want);
    p.rtt = 334_000_000;
    want.rtt = 334;
    want.rttvar = 166;
    assert_eq!(PathStatsRecord::new(8, &p, 77), want);
}

#[test]
fn the_last_reported_offsets_count() {
    assert_eq!(last_offsets(&Vec::new()), (0, 0));
    assert_eq!(last_offsets(&vec![None, None]), (0, 0));
    assert_eq!(last_offsets(&vec![Some((1, 2)), Some((3, 4)), None]), (3, 4));
}

#[test]
fn settings_of_the_endpoints() {
    let s = server_settings();
    assert_eq!((s.max_idle_timeout, s.max_udp_payload_size), (5000, 1350));
    assert_eq!(s.initial_max_data, 10_000_000);
    assert_eq!(s.initial_max_stream_data_bidi_local, 1_500_000);
    assert_eq!(s.initial_max_stream_data_bidi_remote, 1_500_000);
    assert_eq!(s.initial_max_stream_data_uni, 1_000_000);
    assert_eq!((s.initial_max_streams_bidi, s.initial_max_streams_uni), (100, 100));
    assert!(s.disable_active_migration && s.early_data && s.multipath);
    let c = client_settings(Some(7));
    assert_eq!(c.initial_max_stream_data_bidi_local, 7);
    assert_eq!(c.initial_max_stream_data_bidi_remote, 7);
    assert_eq!(client_settings(None).initial_max_stream_data_bidi_local, 1_500_000);
    assert_eq!(c.initial_max_stream_data_uni, 0);
    assert!(!c.early_data && c.multipath);
}

#[test]
fn logs_are_named_by_role_and_connection() {
    assert_eq!(file_name("server", "00ff"), "server-00ff.sqlog");
    assert_ne!(file_name("client", "a"), file_name("client", "b"));
    assert_eq!(description("quiche-client qlog", "00ff"), "quiche-client qlog id=00ff");
}
