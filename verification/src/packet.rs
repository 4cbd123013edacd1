//! Datagrams from peers that have no connection yet.

use vstd::prelude::*;

verus! {

/// The kinds of QUIC packets.
#[derive(Clone, Copy, Debug, PartialEq, Eq, Structural)]
pub enum PacketType {
    Initial,
    Retry,
    Handshake,
    ZeroRTT,
    VersionNegotiation,
    Short,
}

/// What the server reads of a packet's header.
#[derive(Debug)]
pub struct PacketHeader {
    pub ty: PacketType,
    pub version: u32,
    pub dcid: Vec<u8>,
    pub scid: Vec<u8>,
    /// The address validation token; only some kinds of packets have one.
    pub token: Option<Vec<u8>>,
}

/// A packet's header as a mathematical value.
pub struct HeaderView {
    pub ty: PacketType,
    pub version: u32,
    pub dcid: Seq<u8>,
    pub scid: Seq<u8>,
    pub token: Option<Seq<u8>>,
}

impl View for PacketHeader {
    type V = HeaderView;

    open spec fn view(&self) -> HeaderView {
        HeaderView {
            ty: self.ty,
            version: self.version,
            dcid: self.dcid@,
            scid: self.scid@,
            token: match self.token {
                Some(t) => Some(t@),
                None => None,
            },
        }
    }
}

/// The largest datagram that this endpoint sends.
pub const MAX_DATAGRAM_SIZE: usize = 1350;

/// The length of the tag that ends a Retry packet.
pub const RETRY_TAG_LEN: usize = 16;

/// The header that the transport reads off a packet, where it can, given the
/// length of the connection IDs that this endpoint issues.
pub uninterp spec fn header_spec(bytes: Seq<u8>, dcid_len: nat) -> Option<HeaderView>;

/// `quiche::Header::from_slice`: the header depends on the bytes and on
/// `dcid_len` alone, and reading it fails where they hold none. An Initial packet
/// has a token; connection IDs have at most 255 bytes, or `dcid_len` in a packet
/// with a short header, and at most 20 in an Initial packet of version 1.
#[verifier::external_body]
pub(crate) fn parse_header(bytes: &[u8], dcid_len: usize) -> (hdr: Option<PacketHeader>)
    ensures
        match hdr {
            Some(h) => header_spec(bytes@, dcid_len as nat) == Some(h@),
            None => header_spec(bytes@, dcid_len as nat) is None,
        },
        hdr matches Some(h) ==> {
            &&& h.ty is Initial ==> h.token is Some
            &&& h.ty is Initial && h.version == 1 ==> h.dcid@.len() <= 20 && h.scid@.len() <= 20
            &&& h.dcid@.len() <= 255 || h.dcid@.len() == dcid_len
            &&& h.scid@.len() <= 255
        },
{
    let hdr = quiche::Header::from_slice(&mut bytes.to_vec(), dcid_len).ok()?;
    let ty = match hdr.ty {
        quiche::Type::Initial => PacketType::Initial,
        quiche::Type::Retry => PacketType::Retry,
        quiche::Type::Handshake => PacketType::Handshake,
        quiche::Type::ZeroRTT => PacketType::ZeroRTT,
        quiche::Type::VersionNegotiation => PacketType::VersionNegotiation,
        quiche::Type::Short => PacketType::Short,
    };
    let (dcid, scid) = (hdr.dcid.to_vec(), hdr.scid.to_vec());
    Some(PacketHeader { ty, version: hdr.version, dcid, scid, token: hdr.token })
}

/// `quiche::version_is_supported`: of the versions of QUIC, 1 is supported.
#[verifier::external_body]
pub(crate) fn version_is_supported(version: u32) -> (b: bool)
    ensures
        b == (version == 1),
{
    quiche::version_is_supported(version)
}

/// What follows the first byte of a Version Negotiation packet: version zero, the
/// connection IDs of the packet that it answers, swapped, and version 1, the only
/// one on offer.
pub open spec fn negotiation_tail(scid: Seq<u8>, dcid: Seq<u8>) -> Seq<u8> {
    seq![0u8, 0u8, 0u8, 0u8, scid.len() as u8] + scid + seq![dcid.len() as u8] + dcid + seq![
        0u8,
        0u8,
        0u8,
        1u8,
    ]
}

/// `packet` is a Version Negotiation packet that answers one with these
/// connection IDs. Of its first byte only the topmost bit is fixed.
pub open spec fn is_negotiation(packet: Seq<u8>, scid: Seq<u8>, dcid: Seq<u8>) -> bool {
    &&& packet.len() > 0
    &&& packet[0] >= 0x80
    &&& packet.skip(1) == negotiation_tail(scid, dcid)
}

/// `quiche::negotiate_version`, into a buffer of `space` bytes: it writes a
/// Version Negotiation packet, and fails exactly where that does not fit. The
/// first byte is random but for its topmost bit.
#[verifier::external_body]
pub(crate) fn negotiate_version(scid: &Vec<u8>, dcid: &Vec<u8>, space: usize) -> (packet: Option<
    Vec<u8>,
>)
    requires
        space <= MAX_DATAGRAM_SIZE,
    ensures
        match packet {
            Some(p) => is_negotiation(p@, scid@, dcid@) && p@.len() <= space,
            None => 1 + negotiation_tail(scid@, dcid@).len() > space,
        },
{
    let (scid, dcid) = (quiche::ConnectionId::from_ref(scid), quiche::ConnectionId::from_ref(dcid));
    let mut out = vec![0; space];
    let len = quiche::negotiate_version(&scid, &dcid, &mut out).ok()?;
    out.truncate(len);
    Some(out)
}

/// What comes before the tag of a Retry packet: the fixed bits, the version, the
/// connection IDs of receiver and sender, and the token.
pub open spec fn retry_head(
    scid: Seq<u8>,
    new_scid: Seq<u8>,
    token: Seq<u8>,
    version: u32,
) -> Seq<u8> {
    seq![
        0xf0u8,
        (version / 0x1000000) as u8,
        (version / 0x10000 % 0x100) as u8,
        (version / 0x100 % 0x100) as u8,
        (version % 0x100) as u8,
        scid.len() as u8,
    ] + scid + seq![new_scid.len() as u8] + new_scid + token
}

/// The Retry packet that the transport makes.
pub uninterp spec fn retry_spec(
    scid: Seq<u8>,
    dcid: Seq<u8>,
    new_scid: Seq<u8>,
    token: Seq<u8>,
    version: u32,
) -> Seq<u8>;

/// `quiche::retry`, into a buffer of `space` bytes: it writes a Retry packet that
/// carries `token` and ends in a tag of 16 bytes, and fails exactly where the
/// version is not supported or the packet does not fit. The packet is determined
/// by the arguments other than `space`. How the tag is computed is left unsaid.
/// The bound on `dcid` is the length that its own length byte can hold.
#[verifier::external_body]
pub(crate) fn retry(
    scid: &Vec<u8>,
    dcid: &Vec<u8>,
    new_scid: &Vec<u8>,
    token: &Vec<u8>,
    version: u32,
    space: usize,
) -> (packet: Option<Vec<u8>>)
    requires
        space <= MAX_DATAGRAM_SIZE,
        dcid@.len() <= 255,
    ensures
        match packet {
            Some(p) => {
                let head = retry_head(scid@, new_scid@, token@, version);
                &&& p@ == retry_spec(scid@, dcid@, new_scid@, token@, version)
                &&& p@.len() == head.len() + RETRY_TAG_LEN
                &&& p@.len() <= space
                &&& head.is_prefix_of(p@)
                &&& version == 1
            },
            None => version != 1 || retry_head(scid@, new_scid@, token@, version).len()
                + RETRY_TAG_LEN > space,
        },
{
    let (scid, dcid) = (quiche::ConnectionId::from_ref(scid), quiche::ConnectionId::from_ref(dcid));
    let new_scid = quiche::ConnectionId::from_ref(new_scid);
    let mut out = vec![0; space];
    let len = quiche::retry(&scid, &dcid, &new_scid, token, version, &mut out).ok()?;
    out.truncate(len);
    Some(out)
}

} // verus!
