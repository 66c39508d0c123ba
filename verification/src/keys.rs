//! The key of a group: every peer derives the same signing key from the
//! group's name and password, and the coordinator's id is published under
//! that key's public half.

use vstd::prelude::*;
use vstd::string::StrSliceExecFns;
use vstd::string::StringExecFns;
use vstd::string::StringSliceAdditionalSpecFns;

verus! {

#[verifier::external_type_specification]
#[verifier::external_body]
pub struct ExKeypair(pkarr::Keypair);

/// The bytes that PBKDF2 with HMAC-SHA256 derives from a password and a salt
/// in the given number of rounds, `len` bytes long.
pub uninterp spec fn pbkdf2_hmac_sha256_of(password: Seq<u8>, salt: Seq<u8>, rounds: u32, len: nat) -> Seq<u8>;

/// The signing key that `pkarr::Keypair::from_secret_key` builds from a
/// 32-byte secret.
pub uninterp spec fn keypair_from_secret_of(secret: Seq<u8>) -> pkarr::Keypair;

/// The z-base32 text of a key pair's public key.
pub uninterp spec fn keypair_z32_of(keypair: pkarr::Keypair) -> Seq<char>;

/// The 32 bytes of a key pair's public key.
pub uninterp spec fn keypair_public_key_of(keypair: pkarr::Keypair) -> Seq<u8>;

/// The records of the packet that `pkarr::SignedPacket::from_relay_payload`
/// reads from a relay's answer for the public key, in the packet's order:
/// each record's time to live, with the text of a TXT record or `None` for
/// any other record; `None` as a whole if the answer is not a packet validly
/// signed by that key.
pub uninterp spec fn relay_records_of(public_key: Seq<u8>, payload: Seq<u8>) -> Option<Seq<(u32, Option<Seq<char>>)>>;

/// The bytes of the id that `iroh::EndpointId::from_str` parses from a text,
/// if it parses.
pub uninterp spec fn endpoint_id_of(text: Seq<char>) -> Option<Seq<u8>>;

/// Calls `pbkdf2::pbkdf2_hmac::<sha2::Sha256>` on a buffer of `len` zero
/// bytes. The function fills the whole buffer with the derived key and does
/// not panic (HMAC takes a key of any length). Claimed: the result has `len`
/// bytes and is the derived key, a function of the arguments alone.
#[verifier::external_body]
fn pbkdf2_hmac_sha256(password: &[u8], salt: &[u8], rounds: u32, len: usize) -> (key: Vec<u8>)
    ensures
        key@.len() == len,
        key@ == pbkdf2_hmac_sha256_of(password@, salt@, rounds, len as nat),
{
    let mut key = vec![0u8; len];
    pbkdf2::pbkdf2_hmac::<sha2::Sha256>(password, salt, rounds, &mut key);
    key
}

/// Calls `pkarr::Keypair::from_secret_key`, which builds an Ed25519 signing
/// key from 32 secret bytes. Claimed: the key depends on the secret alone.
#[verifier::external_body]
fn keypair_from_secret(secret: &[u8]) -> (keypair: pkarr::Keypair)
    requires
        secret@.len() == 32,
    ensures
        keypair == keypair_from_secret_of(secret@),
{
    let bytes: [u8; 32] = secret.try_into().unwrap();
    pkarr::Keypair::from_secret_key(&bytes)
}

/// Calls `pkarr::Keypair::to_z32`, the z-base32 text of the public key.
/// Claimed: the text depends on the key pair alone.
#[verifier::external_body]
fn keypair_z32(keypair: &pkarr::Keypair) -> (z32: String)
    ensures
        z32@ == keypair_z32_of(*keypair),
{
    keypair.to_z32()
}

/// The views of the records read from a relay's answer.
pub open spec fn records_view(records: Seq<(u32, Option<String>)>) -> Seq<(u32, Option<Seq<char>>)> {
    records.map_values(|r: (u32, Option<String>)| (r.0, match r.1 {
        Some(t) => Some(t@),
        None => None,
    }))
}

/// Calls `pkarr::SignedPacket::from_relay_payload` with the key pair's public
/// key, which checks the signature and parses the packet, and lists its
/// records with `all_resource_records`: each record's `ttl`, with the text of
/// a TXT record (through `String::try_from`), `None` for other records and for
/// a TXT whose text is not UTF-8. Claimed: the result depends on the public key and the answer
/// alone (the packet's `last_seen` plays no part in either call).
#[verifier::external_body]
fn relay_records(keypair: &pkarr::Keypair, payload: &[u8]) -> (records: Option<Vec<(u32, Option<String>)>>)
    ensures
        match records {
            Some(r) => relay_records_of(keypair_public_key_of(*keypair), payload@) == Some(records_view(r@)),
            None => relay_records_of(keypair_public_key_of(*keypair), payload@) is None,
        },
{
    let payload = bytes::Bytes::copy_from_slice(payload);
    match pkarr::SignedPacket::from_relay_payload(&keypair.public_key(), &payload) {
        Ok(packet) => Some(packet.all_resource_records().map(|record| (record.ttl, match &record.rdata {
            pkarr::dns::rdata::RData::TXT(txt) => String::try_from(txt.clone()).ok(),
            _ => None,
        })).collect()),
        Err(_) => None,
    }
}

/// Calls `iroh::EndpointId::from_str` (hex or base32 text of an Ed25519
/// public key). Claimed: the bytes of the parsed id, or `None` when it does
/// not parse, depend on the text alone.
#[verifier::external_body]
fn parse_endpoint_id(text: &str) -> (id: Option<[u8; 32]>)
    ensures
        match id {
            Some(b) => endpoint_id_of(text@) == Some(b@),
            None => endpoint_id_of(text@) is None,
        },
{
    match text.parse::<iroh::EndpointId>() {
        Ok(key) => Some(*key.as_bytes()),
        Err(_) => None,
    }
}

/// The lower-case hexadecimal digit for `n` (0 to 15).
pub open spec fn hex_digit(n: int) -> char {
    seq!['0', '1', '2', '3', '4', '5', '6', '7', '8', '9', 'a', 'b', 'c', 'd', 'e', 'f'][n]
}

/// Bytes written as lower-case hexadecimal, two digits per byte, high
/// nibble first.
pub open spec fn hex_lower(bytes: Seq<u8>) -> Seq<char> {
    Seq::new(
        2 * bytes.len(),
        |i: int|
            if i % 2 == 0 {
                hex_digit((bytes[i / 2] / 16) as int)
            } else {
                hex_digit((bytes[i / 2] % 16) as int)
            },
    )
}

/// Calls `iroh::EndpointId::from_bytes` and writes the id with its
/// `Display`, which is the lower-case hex of the bytes (`HEXLOWER`). Claimed:
/// the text is that hex; `from_str` parses it back to the same bytes, since
/// a text of 64 characters is read as `HEXLOWER` and then checked by the same
/// `from_bytes`; `None` exactly when `from_bytes` rejects the bytes (not a
/// point of the curve), and then the hex text does not parse either.
#[verifier::external_body]
fn endpoint_id_text(id: &[u8; 32]) -> (text: Option<String>)
    ensures
        match text {
            Some(t) => t@ == hex_lower(id@) && endpoint_id_of(t@) == Some(id@),
            None => endpoint_id_of(hex_lower(id@)) is None,
        },
{
    match iroh::EndpointId::from_bytes(id) {
        Ok(key) => Some(key.to_string()),
        Err(_) => None,
    }
}

/// Builds a packet with one TXT record holding `text` at the key's apex
/// (`Name::new(".")`, `TXT::try_from`, `SignedPacketBuilder::txt`) with the
/// given time to live, signs it with `SignedPacketBuilder::sign` and takes
/// `to_relay_payload`. The packet carries the time of signing, so the bytes
/// are not a function of the arguments and get no name. Claimed:
/// `from_relay_payload` with the key's public half accepts the bytes (they
/// are the signed packet after the public key), and the packet's one record
/// has that time to live and is a TXT whose character strings (of at most 254
/// bytes each) join back to `text`; an empty text is written as one empty
/// string and reads back empty. `Name::new(".")` and `TXT::try_from` do not
/// fail; `sign` fails only for an encoded packet over 1000 bytes. A text of at
/// most 200 characters (800 bytes, 4 strings, 804 bytes of data) makes a
/// packet of at most 880 bytes (12 of header, 54 of the 52-letter name, 10 of
/// record fields), so it is always built.
#[verifier::external_body]
fn signed_txt_payload(keypair: &pkarr::Keypair, text: &str, ttl: u32) -> (payload: Option<Vec<u8>>)
    ensures
        match payload {
            Some(p) => relay_records_of(keypair_public_key_of(*keypair), p@) == Some(seq![(ttl, Some(text@))]),
            None => text@.len() > 200,
        },
{
    let txt = pkarr::dns::rdata::TXT::try_from(text).ok()?;
    let name = pkarr::dns::Name::new(".").ok()?;
    let packet = pkarr::SignedPacket::builder().txt(name, txt.into_owned(), ttl).sign(keypair).ok()?;
    Some(packet.to_relay_payload().to_vec())
}

/// Rounds of PBKDF2 in the derivation of a group's key.
pub const NETWORK_KEY_ROUNDS: u32 = 100_000;

/// Bytes of a group's secret.
pub const NETWORK_SECRET_LEN: usize = 32;

/// The group's secret: PBKDF2-HMAC-SHA256 of the password, salted with the
/// group's name, in 100 000 rounds, 32 bytes long.
pub fn derive_network_secret(net_id: &str, pw: &str) -> (secret: Vec<u8>)
    ensures
        secret@.len() == 32,
        secret@ == pbkdf2_hmac_sha256_of(pw.spec_bytes(), net_id.spec_bytes(), 100_000, 32),
{
    pbkdf2_hmac_sha256(pw.as_bytes(), net_id.as_bytes(), NETWORK_KEY_ROUNDS, NETWORK_SECRET_LEN)
}

/// The group's signing key, built from its secret.
pub fn derive_network_keypair(net_id: &str, pw: &str) -> (keypair: pkarr::Keypair)
    ensures
        keypair == keypair_from_secret_of(
            pbkdf2_hmac_sha256_of(pw.spec_bytes(), net_id.spec_bytes(), 100_000, 32),
        ),
{
    let secret = derive_network_secret(net_id, pw);
    keypair_from_secret(secret.as_slice())
}

/// Where the coordinator's id is published for a group.
pub fn coordinator_record_url(keypair: &pkarr::Keypair) -> (url: String)
    ensures
        url@ == "https://dns.iroh.link/pkarr"@ + "/"@ + keypair_z32_of(*keypair),
{
    let z32 = keypair_z32(keypair);
    let mut url = String::from_str("https://dns.iroh.link/pkarr");
    url.append("/");
    url.append(z32.as_str());
    url
}

/// Whether a character has the Unicode White_Space property, which is what
/// `str::trim` removes.
pub open spec fn is_white_space(c: char) -> bool {
    let u = c as u32;
    (0x9 <= u && u <= 0xd) || u == 0x20 || u == 0x85 || u == 0xa0 || u == 0x1680 || (0x2000 <= u
        && u <= 0x200a) || u == 0x2028 || u == 0x2029 || u == 0x202f || u == 0x205f || u == 0x3000
}

/// The text without its leading white space.
pub open spec fn trim_start(s: Seq<char>) -> Seq<char>
    decreases s.len(),
{
    if s.len() > 0 && is_white_space(s[0]) {
        trim_start(s.drop_first())
    } else {
        s
    }
}

/// The text without its trailing white space.
pub open spec fn trim_end(s: Seq<char>) -> Seq<char>
    decreases s.len(),
{
    if s.len() > 0 && is_white_space(s.last()) {
        trim_end(s.drop_last())
    } else {
        s
    }
}

/// The text without white space at either end.
pub open spec fn trimmed(s: Seq<char>) -> Seq<char> {
    trim_end(trim_start(s))
}

fn white_space(c: char) -> (ws: bool)
    ensures
        ws == is_white_space(c),
{
    let u = c as u32;
    (0x9 <= u && u <= 0xd) || u == 0x20 || u == 0x85 || u == 0xa0 || u == 0x1680 || (0x2000 <= u
        && u <= 0x200a) || u == 0x2028 || u == 0x2029 || u == 0x202f || u == 0x205f || u == 0x3000
}

/// The text without white space at either end, as `str::trim` gives it.
pub fn trim(text: &str) -> (t: String)
    ensures
        t@ == trimmed(text@),
{
    let n = text.unicode_len();
    let mut a: usize = 0;
    assert(text@.skip(0) =~= text@);
    while a < n && white_space(text.get_char(a))
        invariant
            n == text@.len(),
            0 <= a <= n,
            trim_start(text@) == trim_start(text@.skip(a as int)),
        decreases n - a,
    {
        proof {
            assert(text@.skip(a as int).drop_first() =~= text@.skip(a + 1));
        }
        a = a + 1;
    }
    proof {
        if a < n {
            assert(text@.skip(a as int)[0] == text@[a as int]);
        }
        assert(trim_start(text@) == text@.skip(a as int));
    }
    let mut b: usize = n;
    while b > a && white_space(text.get_char(b - 1))
        invariant
            n == text@.len(),
            0 <= a <= b <= n,
            trim_start(text@) == text@.skip(a as int),
            trimmed(text@) == trim_end(text@.subrange(a as int, b as int)),
        decreases b - a,
    {
        proof {
            assert(text@.subrange(a as int, b as int).drop_last() =~= text@.subrange(a as int, b - 1));
            assert(text@.subrange(a as int, b as int).last() == text@[b - 1]);
        }
        b = b - 1;
    }
    proof {
        assert(text@.skip(a as int) =~= text@.subrange(a as int, n as int));
        if b > a {
            assert(text@.subrange(a as int, b as int).last() == text@[b - 1]);
        }
        assert(trimmed(text@) == text@.subrange(a as int, b as int));
    }
    let rest = text.substring_char(a, b);
    String::from_str(rest)
}

/// The first record whose trimmed text parses as an endpoint id, and that id.
pub open spec fn first_endpoint_id(records: Seq<(u32, Option<Seq<char>>)>) -> Option<Seq<u8>>
    decreases records.len(),
{
    if records.len() == 0 {
        None
    } else {
        match records[0].1 {
            Some(t) => if endpoint_id_of(trimmed(t)) is Some {
                endpoint_id_of(trimmed(t))
            } else {
                first_endpoint_id(records.drop_first())
            },
            None => first_endpoint_id(records.drop_first()),
        }
    }
}

/// The coordinator's id that a relay's answer for the group's key names: the
/// first TXT record, of a packet validly signed by the key, whose trimmed text
/// parses as an endpoint id. `None` if the packet is not valid or no record
/// names an id.
pub fn coordinator_id_from_relay(keypair: &pkarr::Keypair, payload: &[u8]) -> (id: Option<[u8; 32]>)
    ensures
        match id {
            Some(b) => {
                &&& relay_records_of(keypair_public_key_of(*keypair), payload@) is Some
                &&& first_endpoint_id(relay_records_of(keypair_public_key_of(*keypair), payload@)->0) == Some(b@)
            },
            None => relay_records_of(keypair_public_key_of(*keypair), payload@) is None
                || first_endpoint_id(relay_records_of(keypair_public_key_of(*keypair), payload@)->0) is None,
        },
{
    let records = match relay_records(keypair, payload) {
        Some(r) => r,
        None => return None,
    };
    let ghost all = records_view(records@);
    let n = records.len();
    let mut i: usize = 0;
    assert(all.skip(0) =~= all);
    while i < n
        invariant
            n == records@.len(),
            all == records_view(records@),
            relay_records_of(keypair_public_key_of(*keypair), payload@) == Some(all),
            all.len() == n,
            0 <= i <= n,
            first_endpoint_id(all) == first_endpoint_id(all.skip(i as int)),
        decreases n - i,
    {
        proof {
            assert(all.skip(i as int).drop_first() =~= all.skip(i + 1));
            assert(all.skip(i as int)[0] == all[i as int]);
        }
        match &records[i].1 {
            Some(text) => {
                let t = trim(text.as_str());
                assert(all[i as int].1 == Some(text@));
                match parse_endpoint_id(t.as_str()) {
                    Some(id) => {
                        assert(first_endpoint_id(all.skip(i as int)) == Some(id@));
                        return Some(id);
                    },
                    None => {},
                }
            },
            None => {},
        }
        i = i + 1;
    }
    proof {
        assert(all.skip(n as int) =~= Seq::<(u32, Option<Seq<char>>)>::empty());
    }
    None
}

/// How long, in seconds, a relay may keep the coordinator's record.
pub const COORDINATOR_RECORD_TTL: u32 = 300;

/// Hex digits are not white space, so trimming leaves a hex text unchanged.
proof fn lemma_hex_is_trimmed(bytes: Seq<u8>)
    requires
        bytes.len() > 0,
    ensures
        trimmed(hex_lower(bytes)) == hex_lower(bytes),
{
    let h = hex_lower(bytes);
    let last = h.len() - 1;
    assert(h[0] == hex_digit((bytes[0] / 16) as int));
    assert(h[last] == hex_digit((bytes[last / 2] % 16) as int));
    assert forall|n: int| 0 <= n < 16 implies !is_white_space(#[trigger] hex_digit(n)) by {
        assert(0 <= n < 16);
    }
    assert(!is_white_space(h[0]));
    assert(trim_start(h) == h);
    assert(!is_white_space(h.last()));
    assert(trim_end(h) == h);
}

/// The answer to publish so that the group's relay record names `id` as its
/// coordinator: one TXT record with the id's hex text, signed by the group's
/// key, kept for 300 seconds. It is built for every `id` that is an endpoint
/// id (the bytes of a curve point), and reading it back with the same key
/// gives the id.
pub fn coordinator_record_payload(keypair: &pkarr::Keypair, id: &[u8; 32]) -> (payload: Option<Vec<u8>>)
    ensures
        payload is Some <==> endpoint_id_of(hex_lower(id@)) is Some,
        payload matches Some(p) ==> {
            &&& relay_records_of(keypair_public_key_of(*keypair), p@) == Some(seq![(300u32, Some(hex_lower(id@)))])
            &&& first_endpoint_id(relay_records_of(keypair_public_key_of(*keypair), p@)->0) == Some(id@)
        },
{
    let text = match endpoint_id_text(id) {
        Some(t) => t,
        None => return None,
    };
    proof {
        lemma_hex_is_trimmed(id@);
    }
    let payload = signed_txt_payload(keypair, text.as_str(), COORDINATOR_RECORD_TTL);
    proof {
        if payload is Some {
            let records = relay_records_of(keypair_public_key_of(*keypair), payload->0@)->0;
            assert(records[0] == (300u32, Some(text@)));
            assert(records.drop_first().len() == 0);
        }
    }
    payload
}

} // verus!
