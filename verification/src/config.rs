//! The transport settings of the two endpoints.

use vstd::prelude::*;

use crate::packet::MAX_DATAGRAM_SIZE;

verus! {

/// What an endpoint asks of the transport. Times are in milliseconds, sizes in
/// bytes.
#[derive(Clone, Copy, Debug, PartialEq, Eq)]
pub struct TransportSettings {
    pub max_idle_timeout: u64,
    pub max_udp_payload_size: usize,
    pub initial_max_data: u64,
    pub initial_max_stream_data_bidi_local: u64,
    pub initial_max_stream_data_bidi_remote: u64,
    pub initial_max_stream_data_uni: u64,
    pub initial_max_streams_bidi: u64,
    pub initial_max_streams_uni: u64,
    pub disable_active_migration: bool,
    pub early_data: bool,
    pub multipath: bool,
}

/// How much a stream may carry where nothing else is asked for.
pub const DEFAULT_STREAM_DATA: u64 = 1_500_000;

/// What both endpoints ask for, given how much a stream may carry.
pub open spec fn common_settings(stream_data: u64) -> TransportSettings {
    TransportSettings {
        max_idle_timeout: 5000,
        max_udp_payload_size: MAX_DATAGRAM_SIZE,
        initial_max_data: 10_000_000,
        initial_max_stream_data_bidi_local: stream_data,
        initial_max_stream_data_bidi_remote: stream_data,
        initial_max_stream_data_uni: 0,
        initial_max_streams_bidi: 100,
        initial_max_streams_uni: 100,
        disable_active_migration: true,
        early_data: false,
        multipath: true,
    }
}

fn common(stream_data: u64) -> (settings: TransportSettings)
    ensures
        settings == common_settings(stream_data),
{
    TransportSettings {
        max_idle_timeout: 5000,
        max_udp_payload_size: MAX_DATAGRAM_SIZE,
        initial_max_data: 10_000_000,
        initial_max_stream_data_bidi_local: stream_data,
        initial_max_stream_data_bidi_remote: stream_data,
        initial_max_stream_data_uni: 0,
        initial_max_streams_bidi: 100,
        initial_max_streams_uni: 100,
        disable_active_migration: true,
        early_data: false,
        multipath: true,
    }
}

/// The server's settings: it also accepts early data and unidirectional streams.
pub fn server_settings() -> (settings: TransportSettings)
    ensures
        settings == (TransportSettings {
            initial_max_stream_data_uni: 1_000_000,
            early_data: true,
            ..common_settings(DEFAULT_STREAM_DATA)
        }),
        settings == (TransportSettings {
            max_idle_timeout: 5000,
            max_udp_payload_size: 1350,
            initial_max_data: 10_000_000,
            initial_max_stream_data_bidi_local: 1_500_000,
            initial_max_stream_data_bidi_remote: 1_500_000,
            initial_max_stream_data_uni: 1_000_000,
            initial_max_streams_bidi: 100,
            initial_max_streams_uni: 100,
            disable_active_migration: true,
            early_data: true,
            multipath: true,
        }),
{
    let mut settings: TransportSettings = common(DEFAULT_STREAM_DATA);
    settings.initial_max_stream_data_uni = 1_000_000;
    settings.early_data = true;
    settings
}

/// The client's settings. How much a stream may carry can be asked for.
pub fn client_settings(max_stream_data: Option<u64>) -> (settings: TransportSettings)
    ensures
        settings == common_settings(
            match max_stream_data {
                Some(n) => n,
                None => DEFAULT_STREAM_DATA,
            },
        ),
        max_stream_data matches Some(n) ==> settings.initial_max_stream_data_bidi_local == n
            && settings.initial_max_stream_data_bidi_remote == n,
        max_stream_data is None ==> settings.initial_max_stream_data_bidi_local == 1_500_000
            && settings.initial_max_stream_data_bidi_remote == 1_500_000,
        settings.max_idle_timeout == 5000,
        settings.max_udp_payload_size == 1350,
        settings.initial_max_data == 10_000_000,
        settings.initial_max_stream_data_uni == 0,
        settings.initial_max_streams_bidi == 100,
        settings.initial_max_streams_uni == 100,
        settings.disable_active_migration,
        !settings.early_data,
        settings.multipath,
{
    common(max_stream_data.unwrap_or(DEFAULT_STREAM_DATA))
}

} // verus!
