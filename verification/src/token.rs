//! Address validation tokens for stateless retries.
//!
//! The tokens are not authenticated: anyone can make one. They show the layout of
//! a retry, not how to defend it.

use vstd::prelude::*;
use vstd::slice::slice_subrange;

use crate::addr::{lemma_octets_injective, IpAddr, SocketAddr};
use crate::packet::PacketHeader;

verus! {

/// How every token starts: the word `quiche` in ASCII.
pub open spec fn token_magic() -> Seq<u8> {
    seq![0x71u8, 0x75u8, 0x69u8, 0x63u8, 0x68u8, 0x65u8]
}

/// What every token for an address starts with.
pub open spec fn token_prefix(ip: IpAddr) -> Seq<u8> {
    token_magic() + ip.octets_spec()
}

/// The token that stores a destination connection ID for an address.
pub open spec fn token_spec(dcid: Seq<u8>, ip: IpAddr) -> Seq<u8> {
    token_prefix(ip) + dcid
}

/// What a token stores for an address: nothing where it was not made for it.
pub open spec fn token_content(ip: IpAddr, token: Seq<u8>) -> Option<Seq<u8>> {
    if token_prefix(ip).is_prefix_of(token) {
        Some(token.skip(token_prefix(ip).len() as int))
    } else {
        None
    }
}

/// Makes a retry token: the word `quiche`, the IP address of the client, and the
/// destination connection ID that the client chose.
pub fn mint_token(hdr: &PacketHeader, src: &SocketAddr) -> (token: Vec<u8>)
    ensures
        token@ == token_spec(hdr.dcid@, src.ip),
{
    let mut token: Vec<u8> = vec![0x71u8, 0x75u8, 0x69u8, 0x63u8, 0x68u8, 0x65u8];
    assert(token@ =~= token_magic());
    let octets: Vec<u8> = src.ip.octets();
    token.extend_from_slice(octets.as_slice());
    token.extend_from_slice(hdr.dcid.as_slice());
    assert(token@ =~= token_spec(hdr.dcid@, src.ip));
    token
}

/// Whether `bytes`, from `at` on, starts with `part`.
fn holds_at(bytes: &[u8], at: usize, part: &[u8]) -> (b: bool)
    requires
        at <= bytes@.len(),
    ensures
        b == part@.is_prefix_of(bytes@.skip(at as int)),
{
    if bytes.len() - at < part.len() {
        return false;
    }
    let mut i: usize = 0;
    while i < part.len()
        invariant
            i <= part@.len(),
            at + part@.len() <= bytes.len(),
            forall|j: int| 0 <= j < i ==> part@[j] == #[trigger] bytes@.skip(at as int)[j],
        decreases part@.len() - i,
    {
        if bytes[at + i] != part[i] {
            assert(bytes@.skip(at as int)[i as int] != part@[i as int]);
            assert(part@.is_prefix_of(bytes@.skip(at as int)) ==> part@ == bytes@.skip(
                at as int,
            ).take(part@.len() as int));
            assert(bytes@.skip(at as int).take(part@.len() as int)[i as int] == bytes@.skip(
                at as int,
            )[i as int]);
            return false;
        }
        assert(bytes@.skip(at as int)[i as int] == part@[i as int]);
        i = i + 1;
    }
    assert(part@ =~= bytes@.skip(at as int).take(part@.len() as int));
    true
}

/// Checks a retry token that came from `src`. It must start with the word
/// `quiche` and the IP address of the sender; what follows is the destination
/// connection ID that it stores.
pub fn validate_token<'a>(src: &SocketAddr, token: &'a [u8]) -> (odcid: Option<&'a [u8]>)
    ensures
        match odcid {
            Some(id) => token_content(src.ip, token@) == Some(id@),
            None => token_content(src.ip, token@) is None,
        },
{
    let magic: [u8; 6] = [0x71u8, 0x75u8, 0x69u8, 0x63u8, 0x68u8, 0x65u8];
    let octets: Vec<u8> = src.ip.octets();
    let ghost prefix = token_prefix(src.ip);
    assert(magic@ =~= token_magic());
    if !holds_at(token, 0, magic.as_slice()) {
        proof {
            assert(token@.skip(0) =~= token@);
            if prefix.is_prefix_of(token@) {
                assert(magic@ =~= token@.take(6)) by {
                    assert(prefix.take(6) =~= magic@);
                    assert(token@.take(prefix.len() as int).take(6) =~= token@.take(6));
                }
            }
        }
        return None;
    }
    assert(token@.skip(0) =~= token@);
    if !holds_at(token, 6, octets.as_slice()) {
        proof {
            if prefix.is_prefix_of(token@) {
                assert(octets@ =~= token@.skip(6).take(octets@.len() as int)) by {
                    assert(prefix.skip(6) =~= octets@);
                    assert(token@.take(prefix.len() as int).skip(6) =~= token@.skip(6).take(
                        octets@.len() as int,
                    ));
                }
            }
        }
        return None;
    }
    proof {
        assert(prefix =~= token@.take(prefix.len() as int)) by {
            assert(token@.take(prefix.len() as int) =~= token@.take(6) + token@.skip(6).take(
                octets@.len() as int,
            ));
        }
    }
    Some(slice_subrange(token, 6 + octets.len(), token.len()))
}

/// A token gives back, to the address that it was made for, the connection ID
/// that it stores.
pub proof fn law_token_round_trip(dcid: Seq<u8>, ip: IpAddr)
    ensures
        token_content(ip, token_spec(dcid, ip)) == Some(dcid),
{
    let token = token_spec(dcid, ip);
    let n = token_prefix(ip).len() as int;
    assert(token.take(n) =~= token_prefix(ip));
    assert(token.skip(n) =~= dcid);
}

/// A token holds for no other address of its family. For an address of the other
/// family it holds only where the octets of that address happen to be spelled by
/// the stored address and connection ID.
pub proof fn law_token_is_bound_to_address(dcid: Seq<u8>, ip: IpAddr, other: IpAddr)
    ensures
        token_content(other, token_spec(dcid, ip)) is Some <==> other.octets_spec().is_prefix_of(
            ip.octets_spec() + dcid,
        ),
        (ip is V4) == (other is V4) && ip != other ==> token_content(
            other,
            token_spec(dcid, ip),
        ) is None,
{
    let token = token_spec(dcid, ip);
    let tail = ip.octets_spec() + dcid;
    let octets = other.octets_spec();
    let prefix = token_prefix(other);
    assert(token =~= token_magic() + tail);
    assert(token.skip(6) =~= tail);
    if prefix.is_prefix_of(token) {
        assert(octets =~= tail.take(octets.len() as int)) by {
            assert(prefix.skip(6) =~= octets);
            assert(token.take(prefix.len() as int).skip(6) =~= tail.take(octets.len() as int));
        }
        if (ip is V4) == (other is V4) {
            assert(tail.take(octets.len() as int) =~= ip.octets_spec());
            lemma_octets_injective(ip, other);
        }
    }
    if octets.is_prefix_of(tail) {
        assert(prefix =~= token.take(prefix.len() as int)) by {
            assert(token.take(prefix.len() as int) =~= token_magic() + tail.take(
                octets.len() as int,
            ));
        }
    }
}

/// A token that holds for an address is the one made for the address and the
/// connection ID that it gives back.
pub proof fn law_valid_token_was_minted(token: Seq<u8>, ip: IpAddr)
    requires
        token_content(ip, token) is Some,
    ensures
        token == token_spec(token_content(ip, token)->0, ip),
{
    let n = token_prefix(ip).len() as int;
    assert(token =~= token.take(n) + token.skip(n));
}

/// A token is the word `quiche`, then the octets of the address, then the connection
/// ID, with nothing in between, before or after.
pub proof fn law_token_layout(dcid: Seq<u8>, ip: IpAddr)
    ensures
        token_spec(dcid, ip) == vstd::utf8::encode_utf8("quiche"@) + ip.octets_spec() + dcid,
{
    reveal_strlit("quiche");
    assert(vstd::utf8::is_ascii_chars("quiche"@));
    vstd::utf8::is_ascii_chars_encode_utf8("quiche"@);
    assert(vstd::utf8::encode_utf8("quiche"@) =~= token_magic());
}

/// A token holds for an address exactly where it starts with the word `quiche` and the
/// octets of that address; it then gives back all that follows them.
pub proof fn law_token_content(ip: IpAddr, token: Seq<u8>)
    ensures
        token_content(ip, token) is Some <==> {
            let n = ip.octets_spec().len() as int;
            &&& token.len() >= 6 + n
            &&& token.take(6) == vstd::utf8::encode_utf8("quiche"@)
            &&& token.subrange(6, 6 + n) == ip.octets_spec()
        },
        token_content(ip, token) matches Some(dcid) ==> dcid == token.skip(
            6 + ip.octets_spec().len() as int,
        ),
{
    let n = ip.octets_spec().len() as int;
    reveal_strlit("quiche");
    assert(vstd::utf8::is_ascii_chars("quiche"@));
    vstd::utf8::is_ascii_chars_encode_utf8("quiche"@);
    assert(vstd::utf8::encode_utf8("quiche"@) =~= token_magic());
    let prefix = token_prefix(ip);
    if prefix.is_prefix_of(token) {
        assert(token.take(prefix.len() as int).take(6) =~= token.take(6));
        assert(prefix.take(6) =~= token_magic());
        assert(token.take(prefix.len() as int).subrange(6, 6 + n) =~= token.subrange(6, 6 + n));
        assert(prefix.subrange(6, 6 + n) =~= ip.octets_spec());
    }
    if token.len() >= 6 + n && token.take(6) == token_magic() && token.subrange(6, 6 + n)
        == ip.octets_spec() {
        assert(prefix =~= token.take(prefix.len() as int)) by {
            assert(token.take(6 + n) =~= token.take(6) + token.subrange(6, 6 + n));
        }
    }
}

} // verus!
