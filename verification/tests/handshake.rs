use mpquic::accept::{judge, react, DropReason, Reaction, Verdict};
use mpquic::addr::{IpAddr, SocketAddr};
use mpquic::cid::{
    cid_and_reset_token, conn_id_from_tag, generate_cid, generate_cid_and_reset_token, hex_dump,
    pair_from_draws, ConnIdSeed, RandomSource,
};
use mpquic::packet::{PacketHeader, PacketType};
use mpquic::token::{mint_token, validate_token};

fn v4(last: u8) -> SocketAddr {
    SocketAddr { ip: IpAddr::V4([192, 168, 0, last]), port: 1234, flowinfo: 0, scope_id: 0 }
}

fn v6(last: u8) -> SocketAddr {
    let mut octets = [0u8; 16];
    octets[15] = last;
    SocketAddr { ip: IpAddr::V6(octets), port: 1234, flowinfo: 0, scope_id: 0 }
}

fn seed() -> ConnIdSeed {
    ConnIdSeed { bytes: (0u8..32).collect() }
}

fn header(dcid: &[u8], token: Option<&[u8]>) -> PacketHeader {
    PacketHeader {
        ty: PacketType::Initial,
        version: 1,
        dcid: dcid.to_vec(),
        scid: vec![9, 9],
        token: token.map(|t| t.to_vec()),
    }
}

/// The start of a long-header packet.
fn long_packet(first: u8, version: u32, dcid: &[u8], scid: &[u8], rest: &[u8]) -> Vec<u8> {
    let mut p = vec![first];
    p.extend_from_slice(&version.to_be_bytes());
    p.push(dcid.len() as u8);
    p.extend_from_slice(dcid);
    p.push(scid.len() as u8);
    p.extend_from_slice(scid);
    p.extend_from_slice(rest);
    p
}

fn initial(version: u32, dcid: &[u8], scid: &[u8], token: &[u8]) -> Vec<u8> {
    let mut rest = vec![token.len() as u8];
    rest.extend_from_slice(token);
    rest.extend_from_slice(&[0; 40]);
    long_packet(0xc0, version, dcid, scid, &rest)
}

#[test]
fn token_layout() {
    let token = mint_token(&header(&[1, 2, 3], None), &v4(7));
    assert_eq!(token, b"quiche\xc0\xa8\x00\x07\x01\x02\x03".to_vec());
    let token = mint_token(&header(&[5], None), &v6(1));
    assert_eq!(token.len(), 6 + 16 + 1);
}

#[test]
fn token_round_trip() {
    for src in [v4(7), v6(7)] {
        let token = mint_token(&header(&[1, 2, 3], None), &src);
        assert_eq!(validate_token(&src, &token), Some(&[1u8, 2, 3][..]));
        let token = mint_token(&header(&[], None), &src);
        assert_eq!(validate_token(&src, &token), Some(&[][..]));
    }
}

#[test]
fn an_accepted_token_can_be_minted_again() {
    let token = b"quiche\xc0\xa8\x00\x07\x09\x08".to_vec();
    let odcid = validate_token(&v4(7), &token).unwrap().to_vec();
    assert_eq!(mint_token(&header(&odcid, None), &v4(7)), token);
}

#[test]
fn token_is_refused_elsewhere() {
    let token = mint_token(&header(&[1, 2, 3], None), &v4(7));
    assert_eq!(validate_token(&v4(8), &token), None);
    assert_eq!(validate_token(&v6(7), &token), None);
    assert_eq!(validate_token(&v4(7), &token[..9]), None);
    assert_eq!(validate_token(&v4(7), &token[..5]), None);
    assert_eq!(validate_token(&v4(7), b"quichE\xc0\xa8\x00\x07\x01"), None);
    assert_eq!(validate_token(&v4(7), b""), None);
}

#[test]
fn token_may_spell_an_address_of_the_other_family() {
    let mut octets = [0u8; 16];
    octets[..4].copy_from_slice(&[192, 168, 0, 7]);
    let six = SocketAddr { ip: IpAddr::V6(octets), port: 1, flowinfo: 0, scope_id: 0 };
    let token = mint_token(&header(&[0; 13], None), &v4(7));
    assert_eq!(validate_token(&six, &token), Some(&[0u8][..]));
}

#[test]
fn connection_ids_come_from_the_seed() {
    let id = seed().conn_id(&[1, 2, 3, 4, 5, 6, 7, 8]);
    assert_eq!(
        id,
        vec![
            94, 169, 99, 63, 180, 189, 23, 136, 25, 117, 32, 99, 138, 241, 247, 166, 243, 30, 190,
            10
        ]
    );
    assert_ne!(seed().conn_id(&[1]), seed().conn_id(&[2]));
    assert_eq!(conn_id_from_tag(&(0u8..32).collect()), (0u8..20).collect::<Vec<u8>>());
}

#[test]
fn fresh_secrets_have_their_lengths_and_differ() {
    let mut rng = RandomSource::new(ring::rand::SystemRandom::new());
    let (a, ta) = generate_cid_and_reset_token(&mut rng).unwrap();
    let (b, tb) = generate_cid_and_reset_token(&mut rng).unwrap();
    assert_eq!((a.len(), b.len()), (20, 20));
    assert!(a != b && ta != tb);
    assert_ne!(a, vec![0; 20]);
    let c = generate_cid(&mut rng).unwrap();
    assert_eq!(c.len(), 20);
    assert_ne!(c, generate_cid(&mut rng).unwrap());
    let s = ConnIdSeed::generate(&mut rng).unwrap();
    assert_eq!(s.bytes.len(), 32);
    assert_ne!(s.bytes, ConnIdSeed::generate(&mut rng).unwrap().bytes);
}

#[test]
fn without_randomness_there_are_no_secrets() {
    let (scid, secret) = (vec![7; 20], vec![1; 16]);
    let pair = pair_from_draws(Some(scid.clone()), Some(secret.clone())).unwrap();
    assert_eq!(pair, (scid.clone(), 0x01010101010101010101010101010101));
    assert_eq!(pair_from_draws(Some(scid), None), None);
    assert_eq!(pair_from_draws(None, Some(secret)), None);
    assert_eq!(pair_from_draws(None, None), None);
    assert_eq!(ConnIdSeed::from_draw(Some(vec![5; 32])).unwrap().bytes, vec![5; 32]);
    assert!(ConnIdSeed::from_draw(None).is_none());
}

#[test]
fn reset_token_is_big_endian() {
    let secret: Vec<u8> = (1u8..17).collect();
    let (cid, token) = cid_and_reset_token(vec![3], &secret);
    assert_eq!(cid, vec![3]);
    assert_eq!(token, 0x0102030405060708090a0b0c0d0e0f10);
    for i in 0..16 {
        let mut other = secret.clone();
        other[i] += 1;
        assert_ne!(cid_and_reset_token(vec![3], &other).1, token);
    }
    assert_eq!(cid_and_reset_token(Vec::new(), &vec![0xff; 16]).1, u128::MAX);
    assert_eq!(cid_and_reset_token(Vec::new(), &vec![0; 16]).1, 0);
}

#[test]
fn hex_dump_has_two_digits_per_byte() {
    assert_eq!(hex_dump(&[0xde, 0xad, 0x00, 0x0f, 0x99]), "dead000f99");
    assert_eq!(hex_dump(&[]), "");
    let all: Vec<u8> = (0..=255).collect();
    let dump = hex_dump(&all);
    for (i, b) in all.iter().enumerate() {
        assert_eq!(&dump[2 * i..2 * i + 2], format!("{:02x}", b));
    }
}

#[test]
fn verdicts_on_headers() {
    let conn_id = vec![7u8; 20];
    let src = v4(1);
    let judged = |hdr: &PacketHeader, connected: bool| judge(hdr, conn_id.clone(), &src, connected);

    let mut hdr = header(&[1; 20], Some(&[]));
    assert!(matches!(judged(&hdr, true), Verdict::Deliver));
    match judged(&hdr, false) {
        Verdict::Retry { new_scid, token } => {
            assert_eq!(new_scid, conn_id);
            assert_eq!(token, mint_token(&hdr, &src));
        }
        _ => panic!(),
    }
    hdr.version = 2;
    assert!(matches!(judged(&hdr, false), Verdict::Negotiate));
    hdr.ty = PacketType::Handshake;
    assert!(matches!(judged(&hdr, false), Verdict::Drop(DropReason::NotInitial)));

    let hdr = header(&[1; 20], Some(b"nonsense"));
    assert!(matches!(judged(&hdr, false), Verdict::Drop(DropReason::BadToken)));

    let token = mint_token(&header(&[4, 5, 6], None), &src);
    let hdr = header(&[1; 19], Some(&token));
    assert!(matches!(judged(&hdr, false), Verdict::Drop(DropReason::BadConnectionId)));
    let hdr = header(&[1; 20], Some(&token));
    match judged(&hdr, false) {
        Verdict::Accept { scid, odcid } => {
            assert_eq!(scid, vec![1; 20]);
            assert_eq!(odcid, vec![4, 5, 6]);
        }
        _ => panic!(),
    }
}

#[test]
fn unreadable_and_unexpected_datagrams_are_dropped() {
    let s = seed();
    for bytes in [&[][..], &[0x40, 1, 2][..], &[0xc0, 0, 0, 0, 1, 21][..]] {
        assert!(matches!(
            react(&s, bytes, &v4(1), true),
            Reaction::Drop(DropReason::BadHeader)
        ));
    }
    // A packet with a short header needs a connection.
    let short = [0x40u8; 40];
    assert!(matches!(react(&s, &short, &v4(1), false), Reaction::Drop(DropReason::NotInitial)));
    assert!(matches!(react(&s, &short, &v4(1), true), Reaction::Deliver));
    // So do handshake packets.
    let handshake = long_packet(0xe0, 1, &[1; 8], &[2; 8], &[0; 40]);
    assert!(matches!(react(&s, &handshake, &v4(1), false), Reaction::Drop(DropReason::NotInitial)));
}

#[test]
fn unknown_versions_are_negotiated() {
    let p = initial(0xbabababa, &[1, 2, 3], &[4, 5], &[]);
    match react(&seed(), &p, &v4(1), false) {
        Reaction::Reply(reply) => {
            assert!(reply[0] >= 0x80);
            assert_eq!(reply[1..], [0, 0, 0, 0, 2, 4, 5, 3, 1, 2, 3, 0, 0, 0, 1]);
        }
        _ => panic!(),
    }
}

#[test]
fn retry_then_accept() {
    let (s, src) = (seed(), v4(9));
    let (dcid, scid) = ([1u8, 2, 3, 4, 5, 6, 7, 8], [8u8, 8, 8]);
    let mut reply = match react(&s, &initial(1, &dcid, &scid, &[]), &src, false) {
        Reaction::Reply(reply) => reply,
        _ => panic!(),
    };
    let new_scid = s.conn_id(&dcid);
    let token = mint_token(&header(&dcid, None), &src);

    // The packet is the one that the transport makes of these parts.
    let cid = |bytes: &[u8]| quiche::ConnectionId::from_vec(bytes.to_vec());
    let mut out = [0u8; 1350];
    let n = quiche::retry(&cid(&scid), &cid(&dcid), &cid(&new_scid), &token, 1, &mut out).unwrap();
    assert_eq!(reply, out[..n].to_vec());
    assert_eq!(reply.len(), 7 + 3 + 20 + token.len() + 16);
    assert_eq!(reply[..6], [0xf0, 0, 0, 0, 1, 3]);

    let hdr = quiche::Header::from_slice(&mut reply, 20).unwrap();
    assert_eq!(hdr.ty, quiche::Type::Retry);
    assert_eq!(hdr.dcid.to_vec(), scid.to_vec());
    assert_eq!(hdr.scid.to_vec(), new_scid);
    assert_eq!(hdr.token.unwrap(), token);

    // The client comes back with the token, under the new connection ID.
    match react(&s, &initial(1, &new_scid, &scid, &token), &src, false) {
        Reaction::Accept { scid, odcid } => {
            assert_eq!(scid, new_scid);
            assert_eq!(odcid, dcid.to_vec());
        }
        _ => panic!(),
    }
    // From elsewhere the token is worth nothing.
    assert!(matches!(
        react(&s, &initial(1, &new_scid, &scid, &token), &v4(10), false),
        Reaction::Drop(DropReason::BadToken)
    ));
    // Under a connection ID that the server did not issue neither.
    assert!(matches!(
        react(&s, &initial(1, &dcid, &scid, &token), &src, false),
        Reaction::Drop(DropReason::BadConnectionId)
    ));
}
