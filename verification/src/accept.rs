//! What the server does with a datagram: deliver it to the connection, answer it
//! without keeping state, open a connection, or drop it.

use vstd::prelude::*;
use vstd::slice::slice_to_vec;

use crate::addr::{IpAddr, SocketAddr};
use crate::cid::{ConnIdSeed, CONN_ID_LEN};
use crate::packet::{
    header_spec, is_negotiation, negotiate_version, negotiation_tail, parse_header, retry,
    retry_head, retry_spec, version_is_supported, HeaderView, PacketHeader, PacketType,
    MAX_DATAGRAM_SIZE, RETRY_TAG_LEN,
};
use crate::token::{
    law_token_content, law_token_is_bound_to_address, law_token_layout, law_token_round_trip,
    law_valid_token_was_minted, mint_token, token_content, token_prefix, token_spec,
    validate_token,
};

verus! {

/// The only version of QUIC that the server speaks.
pub const VERSION_1: u32 = 1;

/// Why a datagram is dropped.
#[derive(Clone, Copy, Debug, PartialEq, Eq, Structural)]
pub enum DropReason {
    /// The packet's header cannot be read.
    BadHeader,
    /// There is no connection, and the packet does not open one.
    NotInitial,
    /// The address validation token was not made for the sender.
    BadToken,
    /// The connection ID has a length that the server never issues.
    BadConnectionId,
}

/// What to do with a packet.
pub enum Verdict {
    /// Hand it to the connection.
    Deliver,
    Drop(DropReason),
    /// Offer the versions that the server speaks.
    Negotiate,
    /// Have the client come back with a token, under a new connection ID.
    Retry { new_scid: Vec<u8>, token: Vec<u8> },
    /// Open a connection. The client first addressed the server as `odcid`.
    Accept { scid: Vec<u8>, odcid: Vec<u8> },
}

/// A verdict as a mathematical value.
pub enum VerdictView {
    Deliver,
    Drop(DropReason),
    Negotiate,
    Retry { new_scid: Seq<u8>, token: Seq<u8> },
    Accept { scid: Seq<u8>, odcid: Seq<u8> },
}

impl View for Verdict {
    type V = VerdictView;

    open spec fn view(&self) -> VerdictView {
        match self {
            Verdict::Deliver => VerdictView::Deliver,
            Verdict::Drop(reason) => VerdictView::Drop(*reason),
            Verdict::Negotiate => VerdictView::Negotiate,
            Verdict::Retry { new_scid, token } => VerdictView::Retry {
                new_scid: new_scid@,
                token: token@,
            },
            Verdict::Accept { scid, odcid } => VerdictView::Accept {
                scid: scid@,
                odcid: odcid@,
            },
        }
    }
}

/// What to do with a packet from `ip`, where `connected` tells whether there is a
/// connection and `conn_id` is the connection ID that a new one would get.
pub open spec fn verdict_spec(
    hdr: HeaderView,
    conn_id: Seq<u8>,
    ip: IpAddr,
    connected: bool,
) -> VerdictView {
    if connected {
        VerdictView::Deliver
    } else if hdr.ty != PacketType::Initial {
        VerdictView::Drop(DropReason::NotInitial)
    } else if hdr.version != VERSION_1 {
        VerdictView::Negotiate
    } else if hdr.token->0.len() == 0 {
        VerdictView::Retry { new_scid: conn_id, token: token_spec(hdr.dcid, ip) }
    } else {
        match token_content(ip, hdr.token->0) {
            None => VerdictView::Drop(DropReason::BadToken),
            Some(odcid) => if conn_id.len() != hdr.dcid.len() {
                VerdictView::Drop(DropReason::BadConnectionId)
            } else {
                VerdictView::Accept { scid: hdr.dcid, odcid }
            },
        }
    }
}

/// Decides what to do with a packet whose header was read.
pub fn judge(hdr: &PacketHeader, conn_id: Vec<u8>, src: &SocketAddr, connected: bool) -> (verdict:
    Verdict)
    requires
        !connected && hdr.ty == PacketType::Initial && hdr.version == VERSION_1
            ==> hdr.token is Some,
    ensures
        verdict@ == verdict_spec(hdr@, conn_id@, src.ip, connected),
        verdict is Deliver <==> connected,
{
    if connected {
        return Verdict::Deliver;
    }
    if hdr.ty != PacketType::Initial {
        return Verdict::Drop(DropReason::NotInitial);
    }
    if !version_is_supported(hdr.version) {
        return Verdict::Negotiate;
    }
    match &hdr.token {
        Some(token) => {
            if token.len() == 0 {
                return Verdict::Retry { new_scid: conn_id, token: mint_token(hdr, src) };
            }
            match validate_token(src, token.as_slice()) {
                Some(odcid) => {
                    if conn_id.len() != hdr.dcid.len() {
                        return Verdict::Drop(DropReason::BadConnectionId);
                    }
                    Verdict::Accept {
                        scid: slice_to_vec(hdr.dcid.as_slice()),
                        odcid: slice_to_vec(odcid),
                    }
                },
                None => Verdict::Drop(DropReason::BadToken),
            }
        },
        None => Verdict::Drop(DropReason::BadToken),
    }
}

/// What to do with a datagram.
pub enum Reaction {
    /// Hand it to the connection.
    Deliver,
    Drop(DropReason),
    /// Send this packet back.
    Reply(Vec<u8>),
    /// Open a connection with `scid` as the server's connection ID, and hand the
    /// datagram to it. The client first addressed the server as `odcid`.
    Accept { scid: Vec<u8>, odcid: Vec<u8> },
}

/// `reaction` carries out the verdict on a packet with this header.
pub open spec fn carries_out(reaction: Reaction, verdict: VerdictView, hdr: HeaderView) -> bool {
    match verdict {
        VerdictView::Deliver => reaction is Deliver,
        VerdictView::Drop(reason) => reaction == Reaction::Drop(reason),
        VerdictView::Negotiate => reaction matches Reaction::Reply(packet) && is_negotiation(
            packet@,
            hdr.scid,
            hdr.dcid,
        ),
        VerdictView::Retry { new_scid, token } => reaction matches Reaction::Reply(packet)
            && packet@ == retry_spec(hdr.scid, hdr.dcid, new_scid, token, hdr.version)
            && retry_head(hdr.scid, new_scid, token, hdr.version).is_prefix_of(packet@),
        VerdictView::Accept { scid, odcid } => reaction matches Reaction::Accept {
            scid: s,
            odcid: o,
        } && s@ == scid && o@ == odcid,
    }
}

/// Reads a datagram and decides what to do with it. Where a packet is to be sent
/// back, it makes the packet.
pub fn react(seed: &ConnIdSeed, datagram: &[u8], src: &SocketAddr, connected: bool) -> (reaction:
    Reaction)
    requires
        seed.wf(),
    ensures
        match header_spec(datagram@, CONN_ID_LEN as nat) {
            None => reaction == Reaction::Drop(DropReason::BadHeader),
            Some(hdr) => carries_out(
                reaction,
                verdict_spec(hdr, seed.conn_id_spec(hdr.dcid), src.ip, connected),
                hdr,
            ),
        },
        reaction matches Reaction::Reply(packet) ==> packet@.len() <= MAX_DATAGRAM_SIZE,
        reaction is Deliver <==> connected && header_spec(datagram@, 20) is Some,
        reaction == Reaction::Drop(DropReason::BadHeader) <==> header_spec(datagram@, 20) is None,
{
    let hdr: PacketHeader = match parse_header(datagram, CONN_ID_LEN) {
        Some(hdr) => hdr,
        None => {
            return Reaction::Drop(DropReason::BadHeader);
        },
    };
    let conn_id: Vec<u8> = seed.conn_id(hdr.dcid.as_slice());
    match judge(&hdr, conn_id, src, connected) {
        Verdict::Deliver => Reaction::Deliver,
        Verdict::Drop(reason) => Reaction::Drop(reason),
        Verdict::Negotiate => {
            let packet: Option<Vec<u8>> = negotiate_version(
                &hdr.scid,
                &hdr.dcid,
                MAX_DATAGRAM_SIZE,
            );
            assert(negotiation_tail(hdr.scid@, hdr.dcid@).len() == 10 + hdr.scid@.len()
                + hdr.dcid@.len());
            Reaction::Reply(packet.unwrap())
        },
        Verdict::Retry { new_scid, token } => {
            let packet: Option<Vec<u8>> = retry(
                &hdr.scid,
                &hdr.dcid,
                &new_scid,
                &token,
                hdr.version,
                MAX_DATAGRAM_SIZE,
            );
            assert(token_prefix(src.ip).len() <= 22);
            assert(retry_head(hdr.scid@, new_scid@, token@, hdr.version).len() == 7
                + hdr.scid@.len() + new_scid@.len() + token@.len());
            Reaction::Reply(packet.unwrap())
        },
        Verdict::Accept { scid, odcid } => Reaction::Accept { scid, odcid },
    }
}

/// A client that is sent away with a Retry packet and comes back from the same
/// address, with the token, under a connection ID as long as the ones that the
/// server issues, is let in; the server then knows how the client first addressed
/// it.
pub proof fn law_retry_leads_to_accept(
    first: HeaderView,
    second: HeaderView,
    conn_id: Seq<u8>,
    later_conn_id: Seq<u8>,
    ip: IpAddr,
)
    requires
        verdict_spec(first, conn_id, ip, false) is Retry,
        second.ty == PacketType::Initial,
        second.version == VERSION_1,
        second.token == Some(verdict_spec(first, conn_id, ip, false)->token),
        second.dcid.len() == later_conn_id.len(),
    ensures
        verdict_spec(second, later_conn_id, ip, false) == (VerdictView::Accept {
            scid: second.dcid,
            odcid: first.dcid,
        }),
{
    law_token_round_trip(first.dcid, ip);
    assert(token_spec(first.dcid, ip).len() >= 6);
}

/// A connection is opened only where there is none, by an Initial packet of the
/// version that the server speaks, with a token that was made for the sender.
pub proof fn law_accept_needs_token(
    hdr: HeaderView,
    conn_id: Seq<u8>,
    ip: IpAddr,
    connected: bool,
)
    requires
        verdict_spec(hdr, conn_id, ip, connected) is Accept,
    ensures
        !connected,
        hdr.ty == PacketType::Initial,
        hdr.version == VERSION_1,
        hdr.token->0 == token_spec(verdict_spec(hdr, conn_id, ip, connected)->odcid, ip),
        verdict_spec(hdr, conn_id, ip, connected)->scid == hdr.dcid,
        hdr.dcid.len() == conn_id.len(),
{
    law_valid_token_was_minted(hdr.token->0, ip);
}

/// A token that was made for another address of the same family does not open a
/// connection.
pub proof fn law_foreign_token_is_dropped(
    hdr: HeaderView,
    conn_id: Seq<u8>,
    ip: IpAddr,
    owner: IpAddr,
    dcid: Seq<u8>,
)
    requires
        hdr.ty == PacketType::Initial,
        hdr.version == VERSION_1,
        hdr.token == Some(token_spec(dcid, owner)),
        (ip is V4) == (owner is V4),
        ip != owner,
    ensures
        verdict_spec(hdr, conn_id, ip, false) == VerdictView::Drop(DropReason::BadToken),
{
    law_token_is_bound_to_address(dcid, owner, ip);
    assert(token_spec(dcid, owner).len() >= 6);
}

/// While there is a connection, every packet with a readable header is handed to it,
/// whatever its kind, version, connection IDs and token, and wherever it comes from.
pub proof fn law_connection_gets_every_packet(hdr: HeaderView, conn_id: Seq<u8>, ip: IpAddr)
    ensures
        verdict_spec(hdr, conn_id, ip, true) == VerdictView::Deliver,
{
}

/// Without a connection nothing is delivered, and what becomes of a packet is settled
/// by its kind, then its version, then its token, then its connection ID: packets of
/// other kinds are dropped, other versions are answered with an offer, an empty token
/// with a retry, a token that does not hold for the sender is dropped, and so is a
/// connection ID of another length than the server issues; what is left is let in.
pub proof fn law_first_contact(hdr: HeaderView, conn_id: Seq<u8>, ip: IpAddr, token: Seq<u8>)
    requires
        hdr.token == Some(token),
    ensures
        ({
            let verdict = verdict_spec(hdr, conn_id, ip, false);
            &&& !(verdict is Deliver)
            &&& verdict == VerdictView::Drop(DropReason::NotInitial) <==> !(hdr.ty is Initial)
            &&& verdict is Negotiate <==> hdr.ty is Initial && hdr.version != 1
            &&& verdict is Retry <==> hdr.ty is Initial && hdr.version == 1 && token.len() == 0
            &&& verdict == VerdictView::Drop(DropReason::BadToken) <==> hdr.ty is Initial
                && hdr.version == 1 && token.len() > 0 && token_content(ip, token) is None
            &&& verdict == VerdictView::Drop(DropReason::BadConnectionId) <==> hdr.ty is Initial
                && hdr.version == 1 && token_content(ip, token) is Some && hdr.dcid.len()
                != conn_id.len()
            &&& verdict is Accept <==> hdr.ty is Initial && hdr.version == 1 && token_content(
                ip,
                token,
            ) is Some && hdr.dcid.len() == conn_id.len()
            &&& verdict != VerdictView::Drop(DropReason::BadHeader)
        }),
{
    law_token_content(ip, token);
}

/// Without a connection, a packet of another kind than Initial is dropped, token or not.
pub proof fn law_only_initial_opens(hdr: HeaderView, conn_id: Seq<u8>, ip: IpAddr)
    requires
        !(hdr.ty is Initial),
    ensures
        verdict_spec(hdr, conn_id, ip, false) == VerdictView::Drop(DropReason::NotInitial),
{
}

/// A retry hands out the connection ID that the server derived, and a token that gives
/// the sender's address back the connection ID that the client chose.
pub proof fn law_retry_content(hdr: HeaderView, conn_id: Seq<u8>, ip: IpAddr)
    requires
        verdict_spec(hdr, conn_id, ip, false) is Retry,
    ensures
        verdict_spec(hdr, conn_id, ip, false)->new_scid == conn_id,
        token_content(ip, verdict_spec(hdr, conn_id, ip, false)->token) == Some(hdr.dcid),
        verdict_spec(hdr, conn_id, ip, false)->token == vstd::utf8::encode_utf8("quiche"@)
            + ip.octets_spec() + hdr.dcid,
{
    law_token_round_trip(hdr.dcid, ip);
    law_token_layout(hdr.dcid, ip);
}

/// What is sent back answers the packet that it is sent back for: an offer of versions
/// carries its connection IDs, and a retry its connection IDs and version, the new
/// connection ID and the token. What is delivered, dropped or let in is so as judged.
pub proof fn law_reaction_follows_verdict(
    reaction: Reaction,
    verdict: VerdictView,
    hdr: HeaderView,
)
    requires
        carries_out(reaction, verdict, hdr),
    ensures
        verdict is Deliver <==> reaction is Deliver,
        verdict is Drop <==> reaction is Drop,
        verdict is Accept <==> reaction is Accept,
        verdict is Negotiate || verdict is Retry <==> reaction is Reply,
        verdict matches VerdictView::Drop(reason) ==> reaction == Reaction::Drop(reason),
        verdict matches VerdictView::Accept { scid, odcid } ==> reaction->scid@ == scid
            && reaction->odcid@ == odcid,
        verdict is Negotiate ==> is_negotiation(reaction->Reply_0@, hdr.scid, hdr.dcid),
        verdict matches VerdictView::Retry { new_scid, token } ==> {
            let packet = reaction->Reply_0@;
            &&& packet == retry_spec(hdr.scid, hdr.dcid, new_scid, token, hdr.version)
            &&& retry_head(hdr.scid, new_scid, token, hdr.version).is_prefix_of(packet)
        },
{
}

} // verus!
