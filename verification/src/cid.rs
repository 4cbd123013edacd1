//! Connection IDs, the secrets that go with them, and how they are written out.

use ring::rand::SecureRandom;
use vstd::prelude::*;
use vstd::slice::slice_subrange;
use vstd::string::*;

verus! {

/// The length of the connection IDs that this endpoint issues.
pub const CONN_ID_LEN: usize = 20;

/// The length of a stateless reset token.
pub const RESET_TOKEN_LEN: usize = 16;

/// The length of the secret from which connection IDs are derived.
pub const SEED_LEN: usize = 32;

/// The longest input that the derivation of connection IDs takes.
pub const MAX_SIGNED_LEN: u64 = 0x1fff_ffff_ffff_ff00;

/// A source of randomness. The library only draws from it.
#[verifier::external_type_specification]
#[verifier::external_body]
pub struct ExSystemRandom(ring::rand::SystemRandom);

/// One request for random bytes: how many were asked for, and what came, if anything.
pub struct Draw {
    pub len: usize,
    pub bytes: Option<Seq<u8>>,
}

/// A source of randomness, with the draws that the library has made from it.
pub struct RandomSource {
    pub rng: ring::rand::SystemRandom,
    /// The draws so far, the latest one last.
    pub drawn: Ghost<Seq<Draw>>,
}

impl RandomSource {
    /// A source from which nothing was drawn yet.
    pub fn new(rng: ring::rand::SystemRandom) -> (source: RandomSource)
        ensures
            source.rng == rng,
            source.drawn@ == Seq::<Draw>::empty(),
    {
        RandomSource { rng, drawn: Ghost(Seq::empty()) }
    }
}

/// Bytes that may be missing, as a mathematical value.
pub open spec fn bytes_view(bytes: Option<Vec<u8>>) -> Option<Seq<u8>> {
    match bytes {
        Some(b) => Some(b@),
        None => None,
    }
}

/// One draw of `len` bytes was made, and `bytes` came of it. What comes has the length
/// that was asked for.
pub open spec fn draws(
    before: Seq<Draw>,
    after: Seq<Draw>,
    len: usize,
    bytes: Option<Seq<u8>>,
) -> bool {
    &&& after == before.push((Draw { len, bytes }))
    &&& bytes matches Some(b) ==> b.len() == len
}

/// `SecureRandom::fill` on `ring::rand::SystemRandom`: `len` bytes from the
/// system's source of randomness, or nothing where the system cannot supply
/// them. The draw is noted, with its length and with what came of it. Nothing is said
/// of the bytes themselves, nor of when the system supplies them, which rests on the
/// machine.
#[verifier::external_body]
fn random_bytes(source: &mut RandomSource, len: usize) -> (bytes: Option<Vec<u8>>)
    requires
        len <= SEED_LEN,
    ensures
        draws(old(source).drawn@, final(source).drawn@, len, bytes_view(bytes)),
{
    let mut bytes = vec![0; len];
    source.rng.fill(&mut bytes).ok()?;
    Some(bytes)
}

/// The HMAC-SHA256 tag of `data` under `key`.
pub uninterp spec fn hmac_sha256_spec(key: Seq<u8>, data: Seq<u8>) -> Seq<u8>;

/// `ring::hmac::sign` with a SHA-256 key made of the bytes of `key`: the tag is
/// determined by the two and is 32 bytes long. The bounds keep out the inputs
/// that are too long for SHA-256.
#[verifier::external_body]
fn hmac_sha256(key: &[u8], data: &[u8]) -> (tag: Vec<u8>)
    requires
        key@.len() <= SEED_LEN,
        data@.len() <= MAX_SIGNED_LEN,
    ensures
        tag@ == hmac_sha256_spec(key@, data@),
        tag@.len() == 32,
{
    let key = ring::hmac::Key::new(ring::hmac::HMAC_SHA256, key);
    ring::hmac::sign(&key, data).as_ref().to_vec()
}

/// The secret from which the server derives connection IDs.
pub struct ConnIdSeed {
    pub bytes: Vec<u8>,
}

impl ConnIdSeed {
    pub open spec fn wf(&self) -> bool {
        self.bytes@.len() == SEED_LEN
    }

    /// Draws a fresh secret; there is none where the system has no randomness.
    pub fn generate(source: &mut RandomSource) -> (seed: Option<ConnIdSeed>)
        ensures
            draws(
                old(source).drawn@,
                final(source).drawn@,
                SEED_LEN,
                match seed {
                    Some(s) => Some(s.bytes@),
                    None => None,
                },
            ),
            seed matches Some(s) ==> s.wf(),
            seed matches Some(s) ==> s.bytes@.len() == 32,
            final(source).drawn@.len() == old(source).drawn@.len() + 1,
            final(source).drawn@.last().len == 32,
            seed matches Some(s) ==> final(source).drawn@.last().bytes == Some(s.bytes@),
            seed is None ==> final(source).drawn@.last().bytes is None,
    {
        ConnIdSeed::from_draw(random_bytes(source, SEED_LEN))
    }

    /// The secret made of drawn bytes; there is none where nothing was drawn.
    pub fn from_draw(draw: Option<Vec<u8>>) -> (seed: Option<ConnIdSeed>)
        ensures
            match draw {
                Some(bytes) => seed == Some(ConnIdSeed { bytes }),
                None => seed is None,
            },
    {
        match draw {
            Some(bytes) => Some(ConnIdSeed { bytes }),
            None => None,
        }
    }

    /// The connection ID that the server uses towards a client that addressed it
    /// as `dcid`.
    pub open spec fn conn_id_spec(&self, dcid: Seq<u8>) -> Seq<u8> {
        hmac_sha256_spec(self.bytes@, dcid).take(CONN_ID_LEN as int)
    }

    /// Derives the connection ID that the server uses towards a client that
    /// addressed it as `dcid`: the front of the tag of `dcid` under the secret.
    pub fn conn_id(&self, dcid: &[u8]) -> (id: Vec<u8>)
        requires
            self.wf(),
            dcid@.len() <= MAX_SIGNED_LEN,
        ensures
            id@ == self.conn_id_spec(dcid@),
            id@.len() == CONN_ID_LEN,
            id@.len() == 20,
            id@.is_prefix_of(hmac_sha256_spec(self.bytes@, dcid@)),
    {
        let tag: Vec<u8> = hmac_sha256(self.bytes.as_slice(), dcid);
        conn_id_from_tag(&tag)
    }
}

/// The front of a tag, cut to the length of a connection ID.
pub fn conn_id_from_tag(tag: &Vec<u8>) -> (id: Vec<u8>)
    requires
        tag@.len() >= CONN_ID_LEN,
    ensures
        id@ == tag@.take(CONN_ID_LEN as int),
        id@.len() == 20,
        id@.is_prefix_of(tag@),
{
    let mut id: Vec<u8> = Vec::new();
    id.extend_from_slice(slice_subrange(tag.as_slice(), 0, CONN_ID_LEN));
    assert(id@ =~= tag@.take(CONN_ID_LEN as int));
    id
}

/// The number that a sequence of bytes stands for, most significant byte first.
pub open spec fn be_value(bytes: Seq<u8>) -> nat
    decreases bytes.len(),
{
    if bytes.len() == 0 {
        0
    } else {
        be_value(bytes.drop_last()) * 256 + bytes.last() as nat
    }
}

/// `n` bytes stand for a number below 256 to the power of `n`.
proof fn lemma_be_value_bound(bytes: Seq<u8>)
    ensures
        be_value(bytes) < vstd::arithmetic::power::pow(256, bytes.len()),
    decreases bytes.len(),
{
    reveal(vstd::arithmetic::power::pow);
    if bytes.len() > 0 {
        lemma_be_value_bound(bytes.drop_last());
        let p = vstd::arithmetic::power::pow(256, (bytes.len() - 1) as nat);
        assert(vstd::arithmetic::power::pow(256, bytes.len()) == 256 * p);
    }
}

proof fn lemma_pow_256_16()
    ensures
        vstd::arithmetic::power::pow(256, 16) == u128::MAX + 1,
{
    reveal_with_fuel(vstd::arithmetic::power::pow, 17);
}

/// Pairs a connection ID with the reset token that 16 secret bytes stand for,
/// most significant byte first.
pub fn cid_and_reset_token(scid: Vec<u8>, secret: &Vec<u8>) -> (pair: (Vec<u8>, u128))
    requires
        secret@.len() == RESET_TOKEN_LEN,
    ensures
        pair.0 == scid,
        pair.1 == be_value(secret@),
{
    let mut token: u128 = 0;
    let mut i: usize = 0;
    while i < secret.len()
        invariant
            i <= secret@.len(),
            secret@.len() == RESET_TOKEN_LEN,
            token == be_value(secret@.take(i as int)),
        decreases secret@.len() - i,
    {
        proof {
            let next = secret@.take(i + 1);
            assert(next.drop_last() =~= secret@.take(i as int));
            lemma_be_value_bound(next);
            vstd::arithmetic::power::lemma_pow_increases(256, next.len(), 16);
            lemma_pow_256_16();
        }
        token = token * 256 + secret[i] as u128;
        i = i + 1;
    }
    assert(secret@.take(i as int) =~= secret@);
    (scid, token)
}

/// Draws a new connection ID; there is none where the system has no randomness.
pub fn generate_cid(source: &mut RandomSource) -> (scid: Option<Vec<u8>>)
    ensures
        draws(old(source).drawn@, final(source).drawn@, CONN_ID_LEN, bytes_view(scid)),
        scid matches Some(id) ==> id@.len() == 20,
        final(source).drawn@.len() == old(source).drawn@.len() + 1,
        final(source).drawn@.last().len == 20,
        scid matches Some(id) ==> final(source).drawn@.last().bytes == Some(id@),
        scid is None ==> final(source).drawn@.last().bytes is None,
{
    random_bytes(source, CONN_ID_LEN)
}

/// What the draws for a connection ID and a reset token leave: the two are made of two
/// draws, of the lengths that they have, in this order. There is neither where the
/// first draw, after which no second one is made, or the second brings nothing.
pub open spec fn draws_pair(
    before: Seq<Draw>,
    after: Seq<Draw>,
    pair: Option<(Seq<u8>, u128)>,
) -> bool {
    let secret = after.last().bytes;
    match pair {
        Some((scid, token)) => {
            let middle = before.push((Draw { len: CONN_ID_LEN, bytes: Some(scid) }));
            &&& scid.len() == CONN_ID_LEN
            &&& draws(middle, after, RESET_TOKEN_LEN, secret)
            &&& secret matches Some(bytes) && token == be_value(bytes)
        },
        None => {
            ||| draws(before, after, CONN_ID_LEN, None)
            ||| exists|middle: Seq<Draw>|
                #![trigger draws(middle, after, RESET_TOKEN_LEN, None)]
                {
                    &&& draws(before, middle, CONN_ID_LEN, middle.last().bytes)
                    &&& middle.last().bytes is Some
                    &&& draws(middle, after, RESET_TOKEN_LEN, None)
                }
        },
    }
}

/// Draws a new source connection ID and a reset token for it; there is neither
/// where the system has no randomness.
pub fn generate_cid_and_reset_token(source: &mut RandomSource) -> (pair: Option<(Vec<u8>, u128)>)
    ensures
        draws_pair(
            old(source).drawn@,
            final(source).drawn@,
            match pair {
                Some((scid, token)) => Some((scid@, token)),
                None => None,
            },
        ),
{
    let scid: Option<Vec<u8>> = generate_cid(source);
    let ghost middle = source.drawn@;
    let secret: Option<Vec<u8>> = if scid.is_some() {
        random_bytes(source, RESET_TOKEN_LEN)
    } else {
        None
    };
    assert(scid is Some && secret is None ==> draws(middle, source.drawn@, RESET_TOKEN_LEN, None));
    pair_from_draws(scid, secret)
}

/// Pairs a drawn connection ID with the reset token that drawn secret bytes stand
/// for; there is neither where one of the two was not drawn.
pub fn pair_from_draws(scid: Option<Vec<u8>>, secret: Option<Vec<u8>>) -> (pair: Option<
    (Vec<u8>, u128),
>)
    requires
        secret matches Some(bytes) ==> bytes@.len() == RESET_TOKEN_LEN,
    ensures
        match (scid, secret) {
            (Some(id), Some(bytes)) => pair matches Some(p) && p.0 == id && p.1 == be_value(bytes@),
            _ => pair is None,
        },
{
    match (scid, secret) {
        (Some(id), Some(bytes)) => Some(cid_and_reset_token(id, &bytes)),
        _ => None,
    }
}

/// Two secrets of one length that give the same reset token are the same.
pub proof fn law_reset_token_determines_secret(a: Seq<u8>, b: Seq<u8>)
    requires
        a.len() == b.len(),
        be_value(a) == be_value(b),
    ensures
        a == b,
    decreases a.len(),
{
    if a.len() > 0 {
        law_reset_token_determines_secret(a.drop_last(), b.drop_last());
        assert(a =~= a.drop_last().push(a.last()));
        assert(b =~= b.drop_last().push(b.last()));
    } else {
        assert(a =~= b);
    }
}

/// The hexadecimal digit of a number below 16.
pub open spec fn hex_digit_spec(n: u8) -> char {
    if n < 10 {
        (n + 48) as char
    } else {
        (n + 87) as char
    }
}

/// The bytes in hexadecimal, two lower-case digits each.
pub open spec fn hex_spec(bytes: Seq<u8>) -> Seq<char> {
    Seq::new(
        2 * bytes.len(),
        |i: int|
            if i % 2 == 0 {
                hex_digit_spec(bytes[i / 2] / 16)
            } else {
                hex_digit_spec(bytes[i / 2] % 16)
            },
    )
}

fn hex_digit(n: u8) -> (s: &'static str)
    requires
        n < 16,
    ensures
        s@ == seq![hex_digit_spec(n)],
{
    proof {
        reveal_strlit("0");
        reveal_strlit("1");
        reveal_strlit("2");
        reveal_strlit("3");
        reveal_strlit("4");
        reveal_strlit("5");
        reveal_strlit("6");
        reveal_strlit("7");
        reveal_strlit("8");
        reveal_strlit("9");
        reveal_strlit("a");
        reveal_strlit("b");
        reveal_strlit("c");
        reveal_strlit("d");
        reveal_strlit("e");
        reveal_strlit("f");
    }
    let s: &'static str = match n {
        0 => "0",
        1 => "1",
        2 => "2",
        3 => "3",
        4 => "4",
        5 => "5",
        6 => "6",
        7 => "7",
        8 => "8",
        9 => "9",
        10 => "a",
        11 => "b",
        12 => "c",
        13 => "d",
        14 => "e",
        _ => "f",
    };
    assert(s@ =~= seq![hex_digit_spec(n)]);
    s
}

/// Writes bytes in hexadecimal, two lower-case digits each.
pub fn hex_dump(buf: &[u8]) -> (text: String)
    ensures
        text@ == hex_spec(buf@),
{
    let mut text: String = String::new();
    let mut i: usize = 0;
    assert(text@ =~= hex_spec(buf@.take(0)));
    while i < buf.len()
        invariant
            i <= buf@.len(),
            text@ == hex_spec(buf@.take(i as int)),
        decreases buf@.len() - i,
    {
        let b: u8 = buf[i];
        text.append(hex_digit(b / 16));
        text.append(hex_digit(b % 16));
        assert(text@ =~= hex_spec(buf@.take(i + 1)));
        i = i + 1;
    }
    assert(buf@.take(i as int) =~= buf@);
    text
}

/// Different byte strings have different dumps.
pub proof fn law_hex_dump_is_injective(a: Seq<u8>, b: Seq<u8>)
    requires
        hex_spec(a) == hex_spec(b),
    ensures
        a == b,
{
    assert(hex_spec(a).len() == 2 * a.len());
    assert(hex_spec(b).len() == 2 * b.len());
    assert forall|i: int| 0 <= i < a.len() implies a[i] == b[i] by {
        assert((2 * i) / 2 == i && (2 * i + 1) / 2 == i);
        assert(hex_spec(a)[2 * i] == hex_digit_spec(a[i] / 16));
        assert(hex_spec(b)[2 * i] == hex_digit_spec(b[i] / 16));
        assert(hex_spec(a)[2 * i + 1] == hex_digit_spec(a[i] % 16));
        assert(hex_spec(b)[2 * i + 1] == hex_digit_spec(b[i] % 16));
        lemma_hex_digit_injective(a[i] / 16, b[i] / 16);
        lemma_hex_digit_injective(a[i] % 16, b[i] % 16);
    }
    assert(a =~= b);
}

proof fn lemma_hex_digit_injective(m: u8, n: u8)
    requires
        m < 16,
        n < 16,
        hex_digit_spec(m) == hex_digit_spec(n),
    ensures
        m == n,
{
}

/// A connection ID is the front of the tag of what it is derived from, twenty bytes of
/// it.
pub proof fn law_conn_id_is_front_of_tag(seed: ConnIdSeed, dcid: Seq<u8>)
    requires
        hmac_sha256_spec(seed.bytes@, dcid).len() >= 20,
    ensures
        seed.conn_id_spec(dcid).len() == 20,
        seed.conn_id_spec(dcid).is_prefix_of(hmac_sha256_spec(seed.bytes@, dcid)),
{
}

/// Numbers are read most significant byte first: a byte stands for itself, and each byte
/// that follows shifts what came before by one byte.
pub proof fn law_bytes_are_read_big_endian(bytes: Seq<u8>, last: u8)
    ensures
        be_value(Seq::empty()) == 0,
        be_value(seq![last]) == last,
        be_value(bytes.push(last)) == 256 * be_value(bytes) + last,
        be_value(bytes) < vstd::arithmetic::power::pow(256, bytes.len()),
{
    assert(bytes.push(last).drop_last() =~= bytes);
    assert(seq![last].drop_last() =~= Seq::<u8>::empty());
    assert(seq![last].last() == last);
    lemma_be_value_bound(bytes);
}

/// A dump is made of the dumps of its parts; the dump of a byte is two of the digits
/// `0` to `9` and `a` to `f`, of which the first stands for the higher half.
pub proof fn law_hex_dump_reads_back(a: Seq<u8>, b: Seq<u8>, byte: u8)
    ensures
        hex_spec(Seq::empty()) == Seq::<char>::empty(),
        hex_spec(a + b) == hex_spec(a) + hex_spec(b),
        hex_spec(seq![byte]).len() == 2,
        ({
            let high = hex_spec(seq![byte])[0];
            let low = hex_spec(seq![byte])[1];
            &&& '0' <= high <= '9' || 'a' <= high <= 'f'
            &&& '0' <= low <= '9' || 'a' <= low <= 'f'
            &&& byte == 16 * (if high <= '9' {
                high as int - 48
            } else {
                high as int - 87
            }) + (if low <= '9' {
                low as int - 48
            } else {
                low as int - 87
            })
        }),
{
    assert(hex_spec(Seq::<u8>::empty()) =~= Seq::<char>::empty());
    assert forall|i: int| 0 <= i < hex_spec(a + b).len() implies hex_spec(a + b)[i] == (hex_spec(a)
        + hex_spec(b))[i] by {
        if i < 2 * a.len() {
            assert((a + b)[i / 2] == a[i / 2]);
        } else {
            assert((i - 2 * a.len()) / 2 == i / 2 - a.len());
            assert((i - 2 * a.len()) % 2 == i % 2);
            assert((a + b)[i / 2] == b[i / 2 - a.len()]);
        }
    }
    assert(hex_spec(a + b) =~= hex_spec(a) + hex_spec(b));
    assert(seq![byte][0] == byte);
    assert(hex_spec(seq![byte])[0] == hex_digit_spec(byte / 16));
    assert(hex_spec(seq![byte])[1] == hex_digit_spec(byte % 16));
    assert(byte == 16 * (byte / 16) + byte % 16);
    assert(byte / 16 < 16);
}

/// The record of a drawn pair: a pair is there exactly where two draws were made, of
/// twenty and sixteen bytes, and both brought something; it is made of these two.
pub proof fn law_pair_is_what_was_drawn(
    before: Seq<Draw>,
    after: Seq<Draw>,
    pair: Option<(Seq<u8>, u128)>,
)
    requires
        draws_pair(before, after, pair),
    ensures
        before.is_prefix_of(after),
        pair is None <==> after.last().bytes is None,
        after[before.len() as int].len == 20,
        pair is None ==> after.len() == before.len() + 1 || after.len() == before.len() + 2,
        pair matches Some((scid, token)) ==> {
            &&& after.len() == before.len() + 2
            &&& after[before.len() as int].bytes == Some(scid)
            &&& after[before.len() as int + 1].len == 16
            &&& after[before.len() as int + 1].bytes matches Some(secret) && secret.len() == 16
                && be_value(secret) == token
        },
{
    assert(before =~= after.take(before.len() as int));
}

} // verus!
